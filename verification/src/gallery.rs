use vstd::prelude::*;
use crate::input::{Key, KeyEvent, pressed, pressed_key};

verus! {

/// Where the file gallery stands.
#[derive(Clone, Copy, Debug, PartialEq, Eq, Structural)]
pub enum GalleryMode {
    /// Moving the selection through the list of recent files.
    Browsing,
    /// Asking whether to quit.
    ConfirmQuit,
    /// Asking whether to open the selected file.
    ConfirmOpen,
}

/// The file gallery: a selection in a list of `count` recent files.
#[derive(Clone, Copy, Debug, PartialEq, Eq, Structural)]
pub struct Gallery {
    pub selected: u16,
    pub count: usize,
    pub mode: GalleryMode,
}

/// What the gallery asks of the terminal after a key.
#[derive(Clone, Copy, Debug, PartialEq, Eq, Structural)]
pub enum GalleryAction {
    Nothing,
    /// Move the selection marker one line up.
    MoveUp,
    /// Move the selection marker one line down.
    MoveDown,
    /// Show the quit question.
    AskQuit,
    /// Leave the program.
    Quit,
    /// Take the quit question away.
    CancelQuit,
    /// Ask whether to open the file at this position of the list.
    AskOpen(usize),
    /// Open the file at this position of the list.
    Open(usize),
    /// Take the open question about the file at this position away.
    CancelOpen(usize),
}

/// The last position the selection can reach: one less than the number of
/// files, kept to 16 bits as the terminal row counter keeps it.
pub open spec fn last_row(count: usize) -> u16 {
    (count - 1) as u16
}

impl Gallery {
    /// The selection is a position of the list (or 0 when the list is empty).
    pub open spec fn wf(self) -> bool {
        &&& self.mode == GalleryMode::ConfirmOpen ==> self.count > 0
        &&& if self.count == 0 {
            self.selected == 0
        } else {
            self.selected <= last_row(self.count)
        }
    }

    /// The keys for which the gallery needs a non-empty list: moving down and
    /// asking to open.
    pub open spec fn needs_files(self, ev: KeyEvent) -> bool {
        self.mode == GalleryMode::Browsing && (pressed(ev) == Some(Key::Down) || pressed(ev) == Some(Key::Enter))
    }

    /// What a key event does to the gallery.
    pub open spec fn next(self, ev: KeyEvent) -> (Gallery, GalleryAction) {
        match pressed(ev) {
            None => (self, GalleryAction::Nothing),
            Some(key) => match self.mode {
                GalleryMode::Browsing => match key {
                    Key::Char('q') => (Gallery { mode: GalleryMode::ConfirmQuit, ..self }, GalleryAction::AskQuit),
                    Key::Up => if self.selected > 0 {
                        (Gallery { selected: (self.selected - 1) as u16, ..self }, GalleryAction::MoveUp)
                    } else {
                        (self, GalleryAction::Nothing)
                    },
                    Key::Down => if self.selected < last_row(self.count) {
                        (Gallery { selected: (self.selected + 1) as u16, ..self }, GalleryAction::MoveDown)
                    } else {
                        (self, GalleryAction::Nothing)
                    },
                    Key::Enter => (
                        Gallery { mode: GalleryMode::ConfirmOpen, ..self },
                        GalleryAction::AskOpen(self.selected as usize),
                    ),
                    _ => (self, GalleryAction::Nothing),
                },
                GalleryMode::ConfirmQuit => match key {
                    Key::Char('q') => (self, GalleryAction::Quit),
                    Key::Esc => (Gallery { mode: GalleryMode::Browsing, ..self }, GalleryAction::CancelQuit),
                    _ => (self, GalleryAction::Nothing),
                },
                GalleryMode::ConfirmOpen => match key {
                    Key::Enter => (self, GalleryAction::Open(self.selected as usize)),
                    Key::Esc => (
                        Gallery { mode: GalleryMode::Browsing, ..self },
                        GalleryAction::CancelOpen(self.selected as usize),
                    ),
                    _ => (self, GalleryAction::Nothing),
                },
            },
        }
    }

    /// A gallery over `count` files with the first one selected.
    pub fn new(count: usize) -> (res: Gallery)
        ensures
            res.wf(),
            res == (Gallery { selected: 0, count, mode: GalleryMode::Browsing }),
    {
        Gallery { selected: 0, count, mode: GalleryMode::Browsing }
    }

    /// Handles one key event: the next gallery and what to show.
    pub fn step(&self, ev: KeyEvent) -> (res: (Gallery, GalleryAction))
        requires
            self.wf(),
            self.needs_files(ev) ==> self.count > 0,
        ensures
            res == self.next(ev),
            res.0.wf(),
            res.0.count == self.count,
            res.1 matches GalleryAction::Open(i) ==> i < self.count,
            res.1 matches GalleryAction::AskOpen(i) ==> i < self.count,
            res.1 matches GalleryAction::CancelOpen(i) ==> i < self.count,
    {
        let g = *self;
        let key = match pressed_key(ev) {
            None => {
                return (g, GalleryAction::Nothing);
            },
            Some(k) => k,
        };
        proof {
            let c = self.count;
            if c > 0 {
                assert((c - 1) as u16 <= c - 1) by (bit_vector)
                    requires
                        c > 0,
                ;
            }
        }
        match self.mode {
            GalleryMode::Browsing => match key {
                Key::Char('q') => (Gallery { mode: GalleryMode::ConfirmQuit, ..g }, GalleryAction::AskQuit),
                Key::Up => {
                    if self.selected > 0 {
                        (Gallery { selected: self.selected - 1, ..g }, GalleryAction::MoveUp)
                    } else {
                        (g, GalleryAction::Nothing)
                    }
                },
                Key::Down => {
                    let last = #[verifier::truncate] ((self.count - 1) as u16);
                    if self.selected < last {
                        (Gallery { selected: self.selected + 1, ..g }, GalleryAction::MoveDown)
                    } else {
                        (g, GalleryAction::Nothing)
                    }
                },
                Key::Enter => (
                    Gallery { mode: GalleryMode::ConfirmOpen, ..g },
                    GalleryAction::AskOpen(self.selected as usize),
                ),
                _ => (g, GalleryAction::Nothing),
            },
            GalleryMode::ConfirmQuit => match key {
                Key::Char('q') => (g, GalleryAction::Quit),
                Key::Esc => (Gallery { mode: GalleryMode::Browsing, ..g }, GalleryAction::CancelQuit),
                _ => (g, GalleryAction::Nothing),
            },
            GalleryMode::ConfirmOpen => match key {
                Key::Enter => (g, GalleryAction::Open(self.selected as usize)),
                Key::Esc => (
                    Gallery { mode: GalleryMode::Browsing, ..g },
                    GalleryAction::CancelOpen(self.selected as usize),
                ),
                _ => (g, GalleryAction::Nothing),
            },
        }
    }
}


/// A key press.
pub open spec fn press(key: Key) -> KeyEvent {
    KeyEvent { key, kind: crate::input::KeyKind::Press }
}

/// Whatever key comes, the selection stays within the list.
pub proof fn law_selection_stays_in_list(g: Gallery, ev: KeyEvent)
    requires
        g.wf(),
        g.needs_files(ev) ==> g.count > 0,
    ensures
        g.next(ev).0.wf(),
        g.next(ev).0.count == g.count,
{
    let c = g.count;
    if c > 0 {
        assert((c - 1) as u16 <= c - 1) by (bit_vector)
            requires
                c > 0,
        ;
    }
}

/// While browsing, a step down that the list allows is undone by a step up.
pub proof fn law_down_then_up(g: Gallery)
    requires
        g.wf(),
        g.mode == GalleryMode::Browsing,
        g.count > 0,
        g.selected < last_row(g.count),
    ensures
        g.next(press(Key::Down)).0.next(press(Key::Up)).0 == g,
{
}

/// Keys that are not presses (repeats, releases) change nothing.
pub proof fn law_only_presses_count(g: Gallery, ev: KeyEvent)
    requires
        ev.kind != crate::input::KeyKind::Press,
    ensures
        g.next(ev) == (g, GalleryAction::Nothing),
{
}


/// The program is left only from the quit question, by pressing q.
pub proof fn law_quit_needs_confirmation(g: Gallery, ev: KeyEvent)
    ensures
        g.next(ev).1 == GalleryAction::Quit ==> g.mode == GalleryMode::ConfirmQuit && pressed(ev) == Some(Key::Char('q')),
        g.next(ev).1 matches GalleryAction::Open(i) ==> g.mode == GalleryMode::ConfirmOpen && pressed(ev) == Some(
            Key::Enter,
        ) && i == g.selected,
{
}

/// While browsing, keys other than q, Up, Down and Enter change nothing.
pub proof fn law_other_keys_ignored(g: Gallery, key: Key)
    requires
        g.mode == GalleryMode::Browsing,
        key != Key::Char('q'),
        key != Key::Up,
        key != Key::Down,
        key != Key::Enter,
    ensures
        g.next(press(key)) == (g, GalleryAction::Nothing),
{
}

} // verus!
