use writest::canvas::Canvas;
use writest::colour::Rgb;
use writest::editor::{Direction, Editor, EditorAction, EditorEvent, EditorMode, EditorStep};
use writest::gallery::{Gallery, GalleryAction, GalleryMode};
use writest::input::{pressed_key, Key, KeyEvent, KeyKind};

fn press(key: Key) -> KeyEvent {
    KeyEvent { key, kind: KeyKind::Press }
}

fn step(action: EditorAction, frame: bool) -> EditorStep {
    EditorStep { action, frame }
}

#[test]
fn pressed_key_only_for_presses() {
    assert_eq!(pressed_key(press(Key::Up)), Some(Key::Up));
    assert_eq!(pressed_key(KeyEvent { key: Key::Up, kind: KeyKind::Release }), None);
    assert_eq!(pressed_key(KeyEvent { key: Key::Up, kind: KeyKind::Repeat }), None);
}

#[test]
fn gallery_moves_within_the_list() {
    let g = Gallery::new(3);
    let (g, a) = g.step(press(Key::Up));
    assert_eq!((g.selected, a), (0, GalleryAction::Nothing));
    let (g, a) = g.step(press(Key::Down));
    assert_eq!((g.selected, a), (1, GalleryAction::MoveDown));
    let (g, _) = g.step(press(Key::Down));
    let (g, a) = g.step(press(Key::Down));
    assert_eq!((g.selected, a), (2, GalleryAction::Nothing));
    let (g, a) = g.step(press(Key::Up));
    assert_eq!((g.selected, a), (1, GalleryAction::MoveUp));
    let (g, a) = g.step(KeyEvent { key: Key::Down, kind: KeyKind::Release });
    assert_eq!((g.selected, a), (1, GalleryAction::Nothing));
}

#[test]
fn gallery_opens_after_confirmation() {
    let g = Gallery { selected: 1, count: 2, mode: GalleryMode::Browsing };
    let (g, a) = g.step(press(Key::Enter));
    assert_eq!((g.mode, a), (GalleryMode::ConfirmOpen, GalleryAction::AskOpen(1)));
    let (g2, a) = g.step(press(Key::Esc));
    assert_eq!((g2.mode, a), (GalleryMode::Browsing, GalleryAction::CancelOpen(1)));
    let (g3, a) = g.step(press(Key::Char('x')));
    assert_eq!((g3, a), (g, GalleryAction::Nothing));
    let (_, a) = g.step(press(Key::Enter));
    assert_eq!(a, GalleryAction::Open(1));
}

#[test]
fn gallery_quits_after_confirmation() {
    let g = Gallery::new(0);
    let (g, a) = g.step(press(Key::Char('q')));
    assert_eq!((g.mode, a), (GalleryMode::ConfirmQuit, GalleryAction::AskQuit));
    let (g2, a) = g.step(press(Key::Esc));
    assert_eq!((g2.mode, a), (GalleryMode::Browsing, GalleryAction::CancelQuit));
    let (_, a) = g.step(press(Key::Char('q')));
    assert_eq!(a, GalleryAction::Quit);
}

fn editor() -> Editor {
    Editor::new(3, 2, 0, b"pic.st".to_vec())
}

#[test]
fn editor_cursor_stays_on_canvas() {
    let mut e = editor();
    assert_eq!(e.step(EditorEvent::Key(press(Key::Left))), step(EditorAction::Nothing, true));
    assert_eq!(e.step(EditorEvent::Key(press(Key::Right))), step(EditorAction::Moved(Direction::Right), true));
    e.step(EditorEvent::Key(press(Key::Right)));
    assert_eq!(e.step(EditorEvent::Key(press(Key::Right))), step(EditorAction::Nothing, true));
    assert_eq!(e.x, 2);
    assert_eq!(e.step(EditorEvent::Key(press(Key::Down))), step(EditorAction::Moved(Direction::Down), true));
    assert_eq!(e.step(EditorEvent::Key(press(Key::Down))), step(EditorAction::Nothing, true));
    assert_eq!((e.x, e.y), (2, 1));
    assert_eq!(e.step(EditorEvent::Key(press(Key::Char('r')))), step(EditorAction::Redraw, true));
    assert_eq!((e.x, e.y), (0, 0));
}

#[test]
fn editor_starts_on_the_given_row() {
    let e = Editor::new(4, 4, 3, Vec::new());
    assert_eq!((e.x, e.y, e.mode), (0, 3, EditorMode::Drawing));
}

#[test]
fn editor_paint_toggle_and_frame() {
    let mut canvas = Canvas::from_pixels(3, 2, vec![Rgb { red: 0, green: 0, blue: 0 }; 6]).unwrap();
    let mut e = editor();
    let out = e.frame(&mut canvas);
    assert_eq!(out, b"\x1b]12;#ffffff".to_vec());
    e.step(EditorEvent::Key(press(Key::Enter)));
    assert_eq!(e.step(EditorEvent::Line(b"r\n".to_vec())), step(EditorAction::ColourChosen, true));
    assert_eq!(e.step(EditorEvent::Key(press(Key::Char(' ')))), step(EditorAction::PaintToggled, true));
    e.step(EditorEvent::Key(press(Key::Right)));
    let out = e.frame(&mut canvas);
    assert_eq!(out, b"\x1b[48;2;255;0;0m  \x1b[0m\x1b[2D\x1b]12;#00ffff".to_vec());
    assert_eq!(canvas.get_pos(1, 0), Rgb { red: 255, green: 0, blue: 0 });
    assert_eq!(canvas.get_pos(0, 0), Rgb { red: 0, green: 0, blue: 0 });
    e.step(EditorEvent::Key(press(Key::Char(' '))));
    assert!(!e.paint);
}

#[test]
fn editor_colour_length_error_needs_enter() {
    let mut e = editor();
    assert_eq!(e.step(EditorEvent::Key(press(Key::Enter))), step(EditorAction::AskColour, false));
    assert_eq!(e.step(EditorEvent::Line(b"12\n".to_vec())), step(EditorAction::ColourLengthError(3), false));
    assert_eq!(e.mode, EditorMode::ColourLengthError);
    assert_eq!(e.step(EditorEvent::Tick), step(EditorAction::Nothing, false));
    assert_eq!(e.step(EditorEvent::Key(press(Key::Esc))), step(EditorAction::Nothing, false));
    assert_eq!(e.step(EditorEvent::Key(press(Key::Enter))), step(EditorAction::DismissColourError, false));
    assert_eq!(e.mode, EditorMode::Drawing);
    assert_eq!(e.step(EditorEvent::Tick), step(EditorAction::Nothing, true));
}

#[test]
fn editor_save_and_save_as() {
    let mut e = editor();
    assert_eq!(e.step(EditorEvent::Key(press(Key::Char('s')))), step(EditorAction::AskSave, false));
    assert_eq!(e.step(EditorEvent::Key(press(Key::Char('s')))), step(EditorAction::Save, true));
    assert_eq!(e.file, b"pic.st".to_vec());
    e.step(EditorEvent::Key(press(Key::Char('s'))));
    assert_eq!(e.step(EditorEvent::Key(press(Key::Char('n')))), step(EditorAction::AskFileName, false));
    assert_eq!(e.step(EditorEvent::Line(b"new.st\n".to_vec())), step(EditorAction::SaveAs, true));
    assert_eq!(e.file, b"new.st\n".to_vec());
    assert_eq!(e.mode, EditorMode::Drawing);
    e.step(EditorEvent::Key(press(Key::Char('s'))));
    assert_eq!(e.step(EditorEvent::Key(press(Key::Esc))), step(EditorAction::CancelSave, true));
}

#[test]
fn editor_quit_after_confirmation() {
    let mut e = editor();
    assert_eq!(e.step(EditorEvent::Key(press(Key::Char('q')))), step(EditorAction::AskQuit, false));
    assert_eq!(e.step(EditorEvent::Key(press(Key::Esc))), step(EditorAction::CancelQuit, true));
    e.step(EditorEvent::Key(press(Key::Char('q'))));
    assert_eq!(e.step(EditorEvent::Key(press(Key::Char('q')))), step(EditorAction::Quit, false));
}

#[test]
fn editor_ignores_releases_but_frames() {
    let mut e = editor();
    let s = e.step(EditorEvent::Key(KeyEvent { key: Key::Right, kind: KeyKind::Release }));
    assert_eq!(s, step(EditorAction::Nothing, true));
    assert_eq!(e.x, 0);
}
