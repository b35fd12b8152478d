use vstd::prelude::*;
use crate::canvas::{Canvas, CanvasView, cell_spec, pixel_at, pixel_index, render_spec, in_bounds, law_set_then_get};
use crate::colour::{ColourEntry, Rgb, colour_entry_spec, cursor_code_spec, cursor_colour_code, read_colour_entry};
use crate::input::{Key, KeyEvent, pressed, pressed_key};

verus! {

/// Where the drawing editor stands.
#[derive(Clone, Copy, Debug, PartialEq, Eq, Structural)]
pub enum EditorMode {
    /// Moving the cursor (and painting when painting is on).
    Drawing,
    /// Asking whether to quit.
    ConfirmQuit,
    /// Asking whether to save.
    ConfirmSave,
    /// Waiting for the name of the file to save to.
    EnterFileName,
    /// Waiting for a colour line.
    EnterColour,
    /// Telling that the colour line had a wrong length.
    ColourLengthError,
}

/// A direction of the cursor.
#[derive(Clone, Copy, Debug, PartialEq, Eq, Structural)]
pub enum Direction {
    Up,
    Down,
    Left,
    Right,
}

/// What the editor asks of the terminal after an event.
#[derive(Clone, Copy, Debug, PartialEq, Eq, Structural)]
pub enum EditorAction {
    Nothing,
    /// The cursor moved one cell.
    Moved(Direction),
    /// Painting was switched on or off.
    PaintToggled,
    /// Clear the screen and draw the canvas again, cursor at the top left.
    Redraw,
    /// Show the quit question.
    AskQuit,
    /// Leave the editor.
    Quit,
    /// Take the quit question away.
    CancelQuit,
    /// Show the save question.
    AskSave,
    /// Save the canvas to the editor's file.
    Save,
    /// Ask for a file name (a line).
    AskFileName,
    /// Save the canvas to the editor's file, which was just renamed.
    SaveAs,
    /// Take the save question away.
    CancelSave,
    /// Ask for a colour (a line).
    AskColour,
    /// A colour was chosen.
    ColourChosen,
    /// Tell that a colour line of this many bytes has a wrong length.
    ColourLengthError(usize),
    /// Take the colour length message away.
    DismissColourError,
}

/// One input to the editor: the poll timed out, a key event, or a line typed
/// at a prompt (newline included).
#[derive(Debug)]
pub enum EditorEvent {
    Tick,
    Key(KeyEvent),
    Line(Vec<u8>),
}

/// What the editor does with one event: its action, and whether the drawing
/// frame (painting, cursor colour) follows.
#[derive(Clone, Copy, Debug, PartialEq, Eq, Structural)]
pub struct EditorStep {
    pub action: EditorAction,
    pub frame: bool,
}

/// What an editor is.
pub struct EditorView {
    pub x: u16,
    pub y: u16,
    pub columns: usize,
    pub rows: usize,
    pub width: u16,
    pub height: u16,
    pub paint: bool,
    pub colour: Rgb,
    pub mode: EditorMode,
    pub file: Seq<u8>,
}

/// The drawing editor: a cursor on a canvas of `columns` by `rows` cells,
/// whose size the cursor moves keep to 16 bits (`width` by `height`), the
/// painting switch, the current colour and the file saved to.
pub struct Editor {
    pub x: u16,
    pub y: u16,
    pub columns: usize,
    pub rows: usize,
    pub width: u16,
    pub height: u16,
    pub paint: bool,
    pub colour: Rgb,
    pub mode: EditorMode,
    pub file: Vec<u8>,
}

impl View for Editor {
    type V = EditorView;

    open spec fn view(&self) -> EditorView {
        EditorView {
            x: self.x,
            y: self.y,
            columns: self.columns,
            rows: self.rows,
            width: self.width,
            height: self.height,
            paint: self.paint,
            colour: self.colour,
            mode: self.mode,
            file: self.file@,
        }
    }
}

/// The cursor stands on a cell of the canvas, and the 16-bit size is the
/// canvas size cut to 16 bits.
pub open spec fn editor_wf(e: EditorView) -> bool {
    &&& e.x < e.columns
    &&& e.y < e.rows
    &&& e.width == e.columns as u16
    &&& e.height == e.rows as u16
}

/// The keys the editor cannot take while drawing: moving right or redrawing
/// when the 16-bit width is 0, moving down when the 16-bit height is 0.
pub open spec fn refused_key(e: EditorView, ev: EditorEvent) -> bool {
    &&& e.mode == EditorMode::Drawing
    &&& ev matches EditorEvent::Key(k)
    &&& ((pressed(k) == Some(Key::Right) && e.width == 0) || (pressed(k) == Some(Key::Char('r')) && e.width == 0) || (
    pressed(k) == Some(Key::Down) && e.height == 0))
}

pub open spec fn step_of(action: EditorAction, frame: bool) -> EditorStep {
    EditorStep { action, frame }
}

/// What a key pressed while drawing does.
pub open spec fn drawing_key(e: EditorView, key: Key) -> (EditorView, EditorStep) {
    match key {
        Key::Char('q') => (EditorView { mode: EditorMode::ConfirmQuit, ..e }, step_of(EditorAction::AskQuit, false)),
        Key::Up => if e.y > 0 {
            (EditorView { y: (e.y - 1) as u16, ..e }, step_of(EditorAction::Moved(Direction::Up), true))
        } else {
            (e, step_of(EditorAction::Nothing, true))
        },
        Key::Down => if e.y < e.height - 1 {
            (EditorView { y: (e.y + 1) as u16, ..e }, step_of(EditorAction::Moved(Direction::Down), true))
        } else {
            (e, step_of(EditorAction::Nothing, true))
        },
        Key::Right => if e.x < e.width - 1 {
            (EditorView { x: (e.x + 1) as u16, ..e }, step_of(EditorAction::Moved(Direction::Right), true))
        } else {
            (e, step_of(EditorAction::Nothing, true))
        },
        Key::Left => if e.x > 0 {
            (EditorView { x: (e.x - 1) as u16, ..e }, step_of(EditorAction::Moved(Direction::Left), true))
        } else {
            (e, step_of(EditorAction::Nothing, true))
        },
        Key::Char(' ') => (EditorView { paint: !e.paint, ..e }, step_of(EditorAction::PaintToggled, true)),
        Key::Char('r') => (EditorView { x: 0, y: 0, ..e }, step_of(EditorAction::Redraw, true)),
        Key::Char('s') => (EditorView { mode: EditorMode::ConfirmSave, ..e }, step_of(EditorAction::AskSave, false)),
        Key::Enter => (EditorView { mode: EditorMode::EnterColour, ..e }, step_of(EditorAction::AskColour, false)),
        _ => (e, step_of(EditorAction::Nothing, true)),
    }
}

/// What a key pressed at a question or message does.
pub open spec fn modal_key(e: EditorView, key: Key) -> (EditorView, EditorStep) {
    let drawing = EditorView { mode: EditorMode::Drawing, ..e };
    match e.mode {
        EditorMode::ConfirmQuit => match key {
            Key::Char('q') => (e, step_of(EditorAction::Quit, false)),
            Key::Esc => (drawing, step_of(EditorAction::CancelQuit, true)),
            _ => (e, step_of(EditorAction::Nothing, false)),
        },
        EditorMode::ConfirmSave => match key {
            Key::Char('s') => (drawing, step_of(EditorAction::Save, true)),
            Key::Char('n') => (EditorView { mode: EditorMode::EnterFileName, ..e }, step_of(EditorAction::AskFileName, false)),
            Key::Esc => (drawing, step_of(EditorAction::CancelSave, true)),
            _ => (e, step_of(EditorAction::Nothing, false)),
        },
        EditorMode::ColourLengthError => match key {
            Key::Enter => (drawing, step_of(EditorAction::DismissColourError, false)),
            _ => (e, step_of(EditorAction::Nothing, false)),
        },
        _ => (e, step_of(EditorAction::Nothing, false)),
    }
}

/// What a line typed at a prompt does.
pub open spec fn line_input(e: EditorView, line: Seq<u8>) -> (EditorView, EditorStep) {
    let drawing = EditorView { mode: EditorMode::Drawing, ..e };
    match e.mode {
        EditorMode::EnterFileName => (EditorView { file: line, ..drawing }, step_of(EditorAction::SaveAs, true)),
        EditorMode::EnterColour => match colour_entry_spec(line) {
            ColourEntry::Colour(c) => (EditorView { colour: c, ..drawing }, step_of(EditorAction::ColourChosen, true)),
            ColourEntry::WrongLength => (
                EditorView { mode: EditorMode::ColourLengthError, ..e },
                step_of(EditorAction::ColourLengthError(line.len() as usize), false),
            ),
            ColourEntry::Unreadable => (e, step_of(EditorAction::Nothing, false)),
        },
        _ => (e, step_of(EditorAction::Nothing, false)),
    }
}

/// What an event does to the editor.
pub open spec fn editor_next(e: EditorView, ev: EditorEvent) -> (EditorView, EditorStep) {
    match ev {
        EditorEvent::Line(l) => line_input(e, l@),
        EditorEvent::Tick => (e, step_of(EditorAction::Nothing, e.mode == EditorMode::Drawing)),
        EditorEvent::Key(k) => match pressed(k) {
            None => (e, step_of(EditorAction::Nothing, e.mode == EditorMode::Drawing)),
            Some(key) => if e.mode == EditorMode::Drawing {
                drawing_key(e, key)
            } else {
                modal_key(e, key)
            },
        },
    }
}

/// The events the editor cannot take: a colour line that is empty or whose
/// digit groups are not numbers from 0 to 255.
pub open spec fn refused_line(e: EditorView, ev: EditorEvent) -> bool {
    &&& e.mode == EditorMode::EnterColour
    &&& ev matches EditorEvent::Line(l)
    &&& (l@.len() == 0 || colour_entry_spec(l@) == ColourEntry::Unreadable)
}

/// `\x1b[2D`: the terminal cursor two columns back.
pub open spec fn back_two() -> Seq<u8> {
    seq![27u8, 91u8, 50u8, 68u8]
}

/// `\x1b]12;#`: the start of the terminal's cursor colour command.
pub open spec fn cursor_colour_prefix() -> Seq<u8> {
    seq![27u8, 93u8, 49u8, 50u8, 59u8, 35u8]
}

/// The canvas after a drawing frame.
pub open spec fn frame_canvas(e: EditorView, c: CanvasView) -> CanvasView {
    if e.paint {
        CanvasView { pixels: c.pixels.update(pixel_index(e.x as int, e.y as int, c.width as int), e.colour), ..c }
    } else {
        c
    }
}

/// The terminal bytes of a drawing frame: the painted cell (when painting),
/// then the cursor colour that fits the cell under the cursor.
pub open spec fn frame_output(e: EditorView, c: CanvasView) -> Seq<u8> {
    let painted = if e.paint { cell_spec(e.colour) + back_two() } else { Seq::empty() };
    painted + cursor_colour_prefix() + cursor_code_spec(pixel_at(frame_canvas(e, c), e.x as int, e.y as int))
}

impl Editor {
    /// An editor for a canvas of `columns` by `rows` cells saving to `file`,
    /// its cursor in the first column of row `row`, painting off, colour black.
    pub fn new(columns: usize, rows: usize, row: u16, file: Vec<u8>) -> (res: Editor)
        requires
            1 <= columns,
            row < rows,
        ensures
            res@ == (EditorView {
                x: 0,
                y: row,
                columns,
                rows,
                width: columns as u16,
                height: rows as u16,
                paint: false,
                colour: Rgb { red: 0, green: 0, blue: 0 },
                mode: EditorMode::Drawing,
                file: file@,
            }),
            editor_wf(res@),
    {
        Editor {
            x: 0,
            y: row,
            columns,
            rows,
            width: #[verifier::truncate] (columns as u16),
            height: #[verifier::truncate] (rows as u16),
            paint: false,
            colour: Rgb { red: 0, green: 0, blue: 0 },
            mode: EditorMode::Drawing,
            file,
        }
    }

    fn drawing_key(&mut self, key: Key) -> (res: EditorStep)
        requires
            editor_wf(old(self)@),
            old(self).mode == EditorMode::Drawing,
            key == Key::Right ==> old(self).width > 0,
            key == Key::Down ==> old(self).height > 0,
        ensures
            (final(self)@, res) == drawing_key(old(self)@, key),
    {
        match key {
            Key::Char('q') => {
                self.mode = EditorMode::ConfirmQuit;
                EditorStep { action: EditorAction::AskQuit, frame: false }
            },
            Key::Up => {
                if self.y > 0 {
                    self.y = self.y - 1;
                    EditorStep { action: EditorAction::Moved(Direction::Up), frame: true }
                } else {
                    EditorStep { action: EditorAction::Nothing, frame: true }
                }
            },
            Key::Down => {
                if self.y < self.height - 1 {
                    self.y = self.y + 1;
                    EditorStep { action: EditorAction::Moved(Direction::Down), frame: true }
                } else {
                    EditorStep { action: EditorAction::Nothing, frame: true }
                }
            },
            Key::Right => {
                if self.x < self.width - 1 {
                    self.x = self.x + 1;
                    EditorStep { action: EditorAction::Moved(Direction::Right), frame: true }
                } else {
                    EditorStep { action: EditorAction::Nothing, frame: true }
                }
            },
            Key::Left => {
                if self.x > 0 {
                    self.x = self.x - 1;
                    EditorStep { action: EditorAction::Moved(Direction::Left), frame: true }
                } else {
                    EditorStep { action: EditorAction::Nothing, frame: true }
                }
            },
            Key::Char(' ') => {
                self.paint = !self.paint;
                EditorStep { action: EditorAction::PaintToggled, frame: true }
            },
            Key::Char('r') => {
                self.x = 0;
                self.y = 0;
                EditorStep { action: EditorAction::Redraw, frame: true }
            },
            Key::Char('s') => {
                self.mode = EditorMode::ConfirmSave;
                EditorStep { action: EditorAction::AskSave, frame: false }
            },
            Key::Enter => {
                self.mode = EditorMode::EnterColour;
                EditorStep { action: EditorAction::AskColour, frame: false }
            },
            _ => EditorStep { action: EditorAction::Nothing, frame: true },
        }
    }

    fn modal_key(&mut self, key: Key) -> (res: EditorStep)
        ensures
            (final(self)@, res) == modal_key(old(self)@, key),
    {
        match self.mode {
            EditorMode::ConfirmQuit => match key {
                Key::Char('q') => EditorStep { action: EditorAction::Quit, frame: false },
                Key::Esc => {
                    self.mode = EditorMode::Drawing;
                    EditorStep { action: EditorAction::CancelQuit, frame: true }
                },
                _ => EditorStep { action: EditorAction::Nothing, frame: false },
            },
            EditorMode::ConfirmSave => match key {
                Key::Char('s') => {
                    self.mode = EditorMode::Drawing;
                    EditorStep { action: EditorAction::Save, frame: true }
                },
                Key::Char('n') => {
                    self.mode = EditorMode::EnterFileName;
                    EditorStep { action: EditorAction::AskFileName, frame: false }
                },
                Key::Esc => {
                    self.mode = EditorMode::Drawing;
                    EditorStep { action: EditorAction::CancelSave, frame: true }
                },
                _ => EditorStep { action: EditorAction::Nothing, frame: false },
            },
            EditorMode::ColourLengthError => match key {
                Key::Enter => {
                    self.mode = EditorMode::Drawing;
                    EditorStep { action: EditorAction::DismissColourError, frame: false }
                },
                _ => EditorStep { action: EditorAction::Nothing, frame: false },
            },
            _ => EditorStep { action: EditorAction::Nothing, frame: false },
        }
    }

    fn line_input(&mut self, line: Vec<u8>) -> (res: EditorStep)
        requires
            old(self).mode == EditorMode::EnterColour ==> line@.len() >= 1 && colour_entry_spec(line@)
                != ColourEntry::Unreadable,
        ensures
            (final(self)@, res) == line_input(old(self)@, line@),
    {
        match self.mode {
            EditorMode::EnterFileName => {
                self.file = line;
                self.mode = EditorMode::Drawing;
                EditorStep { action: EditorAction::SaveAs, frame: true }
            },
            EditorMode::EnterColour => match read_colour_entry(line.as_slice()) {
                ColourEntry::Colour(c) => {
                    self.colour = c;
                    self.mode = EditorMode::Drawing;
                    EditorStep { action: EditorAction::ColourChosen, frame: true }
                },
                ColourEntry::WrongLength => {
                    self.mode = EditorMode::ColourLengthError;
                    EditorStep { action: EditorAction::ColourLengthError(line.len()), frame: false }
                },
                ColourEntry::Unreadable => EditorStep { action: EditorAction::Nothing, frame: false },
            },
            _ => EditorStep { action: EditorAction::Nothing, frame: false },
        }
    }

    /// Handles one event; the cursor stays on the canvas.
    pub fn step(&mut self, ev: EditorEvent) -> (res: EditorStep)
        requires
            editor_wf(old(self)@),
            !refused_line(old(self)@, ev),
            !refused_key(old(self)@, ev),
        ensures
            (final(self)@, res) == editor_next(old(self)@, ev),
            editor_wf(final(self)@),
    {
        match ev {
            EditorEvent::Line(l) => self.line_input(l),
            EditorEvent::Tick => EditorStep { action: EditorAction::Nothing, frame: self.mode == EditorMode::Drawing },
            EditorEvent::Key(k) => match pressed_key(k) {
                None => EditorStep { action: EditorAction::Nothing, frame: self.mode == EditorMode::Drawing },
                Some(key) => {
                    if self.mode == EditorMode::Drawing {
                        self.drawing_key(key)
                    } else {
                        self.modal_key(key)
                    }
                },
            },
        }
    }

    /// The terminal bytes that draw the canvas again, in rows of the 16-bit width.
    pub fn redraw(&self, canvas: &Canvas) -> (res: Vec<u8>)
        requires
            self.width > 0,
        ensures
            res@ == render_spec(canvas@.pixels, self.width as nat),
    {
        canvas.render_rows(self.width as usize)
    }

    /// The drawing frame: paints the cell under the cursor when painting is
    /// on, and gives the terminal bytes that show it and recolour the cursor.
    pub fn frame(&self, canvas: &mut Canvas) -> (res: Vec<u8>)
        requires
            editor_wf(self@),
            old(canvas)@.width == self.columns,
            old(canvas)@.height == self.rows,
        ensures
            final(canvas)@ == frame_canvas(self@, old(canvas)@),
            res@ == frame_output(self@, old(canvas)@),
    {
        let mut out: Vec<u8> = Vec::new();
        let x = self.x as usize;
        let y = self.y as usize;
        if self.paint {
            canvas.set_pos(x, y, self.colour);
            let cell = crate::canvas::cell_bytes(self.colour);
            out = cell;
            out.push(27);
            out.push(91);
            out.push(50);
            out.push(68);
        }
        let ghost painted = out@;
        out.push(27);
        out.push(93);
        out.push(49);
        out.push(50);
        out.push(59);
        out.push(35);
        let under = canvas.get_pos(x, y);
        let mut code = cursor_colour_code(under);
        out.append(&mut code);
        assert(final(canvas)@ =~= frame_canvas(self@, old(canvas)@));
        assert(out@ =~= frame_output(self@, old(canvas)@));
        out
    }
}


pub open spec fn press(key: Key) -> EditorEvent {
    EditorEvent::Key(KeyEvent { key, kind: crate::input::KeyKind::Press })
}

/// Switching painting twice while drawing leaves the editor as it was.
pub proof fn law_paint_toggle_twice(e: EditorView)
    requires
        e.mode == EditorMode::Drawing,
    ensures
        editor_next(editor_next(e, press(Key::Char(' '))).0, press(Key::Char(' '))).0 == e,
{
}

/// While drawing, a step right that the canvas allows is undone by a step left,
/// and a step down that it allows is undone by a step up.
pub proof fn law_moves_undo(e: EditorView)
    requires
        editor_wf(e),
        e.mode == EditorMode::Drawing,
    ensures
        e.x < e.width - 1 ==> editor_next(editor_next(e, press(Key::Right)).0, press(Key::Left)).0 == e,
        e.y < e.height - 1 ==> editor_next(editor_next(e, press(Key::Down)).0, press(Key::Up)).0 == e,
{
}

/// Asking to quit and then cancelling with escape leaves the editor drawing
/// as before, and the frame resumes.
pub proof fn law_quit_cancel(e: EditorView)
    requires
        e.mode == EditorMode::Drawing,
    ensures
        editor_next(e, press(Key::Char('q'))).1 == step_of(EditorAction::AskQuit, false),
        editor_next(editor_next(e, press(Key::Char('q'))).0, press(Key::Esc)) == (e, step_of(
            EditorAction::CancelQuit,
            true,
        )),
{
}

/// A poll that brings no event changes nothing; the frame follows exactly
/// while drawing.
pub proof fn law_tick_changes_nothing(e: EditorView)
    ensures
        editor_next(e, EditorEvent::Tick) == (e, step_of(EditorAction::Nothing, e.mode == EditorMode::Drawing)),
{
}

/// Whatever event comes, the cursor stays on the canvas.
pub proof fn law_cursor_stays_on_canvas(e: EditorView, ev: EditorEvent)
    requires
        editor_wf(e),
    ensures
        editor_wf(editor_next(e, ev).0),
{
}


/// A drawing frame changes the picture only while painting is on, and then
/// exactly the pixel under the cursor, which takes the current colour. With
/// painting off, the frame only recolours the cursor after the pixel under it.
pub proof fn law_frame_paints_only_when_painting(e: EditorView, c: CanvasView)
    requires
        editor_wf(e),
        c.width == e.columns,
        c.height == e.rows,
        c.pixels.len() == c.width * c.height,
    ensures
        frame_canvas(e, c).width == c.width,
        frame_canvas(e, c).height == c.height,
        !e.paint ==> frame_canvas(e, c) == c,
        !e.paint ==> frame_output(e, c) == cursor_colour_prefix() + cursor_code_spec(pixel_at(c, e.x as int, e.y as int)),
        e.paint ==> pixel_at(frame_canvas(e, c), e.x as int, e.y as int) == e.colour,
        e.paint ==> frame_output(e, c) == cell_spec(e.colour) + back_two() + cursor_colour_prefix() + cursor_code_spec(
            e.colour,
        ),
        e.paint ==> forall|x2: int, y2: int|
            #![trigger pixel_at(frame_canvas(e, c), x2, y2)]
            in_bounds(c, x2, y2) && !(x2 == e.x && y2 == e.y) ==> pixel_at(frame_canvas(e, c), x2, y2) == pixel_at(c, x2, y2),
{
    if e.paint {
        let after = frame_canvas(e, c);
        law_set_then_get(c, after, e.x as int, e.y as int, e.colour, e.x as int, e.y as int);
        assert forall|x2: int, y2: int|
            #![trigger pixel_at(frame_canvas(e, c), x2, y2)]
            in_bounds(c, x2, y2) && !(x2 == e.x && y2 == e.y) implies pixel_at(frame_canvas(e, c), x2, y2) == pixel_at(c, x2, y2) by {
            law_set_then_get(c, after, e.x as int, e.y as int, e.colour, x2, y2);
        }
    } else {
        assert(frame_output(e, c) =~= cursor_colour_prefix() + cursor_code_spec(pixel_at(c, e.x as int, e.y as int)));
    }
}

/// What each event may change: the painting switch flips only on a space
/// pressed while drawing; the colour changes only on a colour line read at the
/// colour prompt, and then becomes the colour the line names; the file
/// changes only on a line read at the file-name prompt, and then becomes that
/// line; the canvas size never changes.
pub proof fn law_what_events_change(e: EditorView, ev: EditorEvent)
    ensures
        editor_next(e, ev).0.columns == e.columns,
        editor_next(e, ev).0.rows == e.rows,
        editor_next(e, ev).0.width == e.width,
        editor_next(e, ev).0.height == e.height,
        editor_next(e, ev).0.paint != e.paint ==> e.mode == EditorMode::Drawing && (ev matches EditorEvent::Key(k)
            && pressed(k) == Some(Key::Char(' '))),
        editor_next(e, ev).0.colour != e.colour ==> e.mode == EditorMode::EnterColour && (ev matches EditorEvent::Line(l)
            && colour_entry_spec(l@) == ColourEntry::Colour(editor_next(e, ev).0.colour)),
        editor_next(e, ev).0.file != e.file ==> e.mode == EditorMode::EnterFileName && (ev matches EditorEvent::Line(l)
            && editor_next(e, ev).0.file == l@),
{
}

/// A line read at the colour prompt changes only the colour and the mode:
/// a colour line sets the colour and goes back to drawing with the cursor,
/// the painting switch and the file as they were.
pub proof fn law_colour_line_keeps_rest(e: EditorView, line: Vec<u8>)
    requires
        e.mode == EditorMode::EnterColour,
    ensures
        ({
            let e2 = editor_next(e, EditorEvent::Line(line)).0;
            &&& e2.x == e.x
            &&& e2.y == e.y
            &&& e2.paint == e.paint
            &&& e2.file == e.file
            &&& colour_entry_spec(line@) matches ColourEntry::Colour(c) ==> e2.colour == c && e2.mode
                == EditorMode::Drawing
            &&& !(colour_entry_spec(line@) is Colour) ==> e2.colour == e.colour
        }),
{
}

/// While drawing, an arrow key moves the cursor one cell its way when the
/// 16-bit size leaves room and not at all otherwise; `r` takes it to the top
/// left; every other key or event leaves it where it is.
pub proof fn law_cursor_moves(e: EditorView, key: Key)
    requires
        e.mode == EditorMode::Drawing,
    ensures
        ({
            let e2 = editor_next(e, press(key)).0;
            match key {
                Key::Up => e2.x == e.x && e2.y == (if e.y > 0 { e.y - 1 } else { e.y as int }),
                Key::Down => e2.x == e.x && e2.y == (if e.y + 1 < e.height { e.y + 1 } else { e.y as int }),
                Key::Left => e2.y == e.y && e2.x == (if e.x > 0 { e.x - 1 } else { e.x as int }),
                Key::Right => e2.y == e.y && e2.x == (if e.x + 1 < e.width { e.x + 1 } else { e.x as int }),
                Key::Char('r') => e2.x == 0 && e2.y == 0,
                _ => e2.x == e.x && e2.y == e.y,
            }
        }),
{
}

/// The editor is left only from the quit question, by pressing q.
pub proof fn law_quit_needs_confirmation(e: EditorView, ev: EditorEvent)
    ensures
        editor_next(e, ev).1.action == EditorAction::Quit ==> e.mode == EditorMode::ConfirmQuit && (ev matches EditorEvent::Key(k)
            && pressed(k) == Some(Key::Char('q'))),
{
}

} // verus!
