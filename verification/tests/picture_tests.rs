use writest::canvas::Canvas;
use writest::colour::Rgb;
use writest::editor::{Direction, Editor, EditorAction, EditorEvent};
use writest::input::{Key, KeyEvent, KeyKind};
use writest::picture::{parse_picture, picture_text, push_decimal_usize};

fn rgb(red: u8, green: u8, blue: u8) -> Rgb {
    Rgb { red, green, blue }
}

fn sample() -> Canvas {
    Canvas::from_pixels(2, 2, vec![rgb(255, 0, 0), rgb(0, 255, 0), rgb(0, 0, 255), rgb(1, 20, 128)]).unwrap()
}

#[test]
fn picture_text_layout() {
    assert_eq!(picture_text(&sample()), b"2 2\n255000000000255000\n000000255001020128\n".to_vec());
    let empty = Canvas::from_pixels(0, 3, vec![]).unwrap();
    assert_eq!(picture_text(&empty), b"0 3\n".to_vec());
}

#[test]
fn picture_round_trip() {
    for c in [sample(), Canvas::from_pixels(0, 3, vec![]).unwrap(), Canvas::from_pixels(3, 0, vec![]).unwrap(),
        Canvas::from_pixels(3, 1, vec![rgb(9, 99, 199); 3]).unwrap()] {
        let text = picture_text(&c);
        let back = parse_picture(&text).unwrap();
        assert_eq!(back.width(), c.width());
        assert_eq!(back.height(), c.height());
        assert_eq!(back.data(), c.data());
    }
}

#[test]
fn picture_reads_pixels() {
    let c = parse_picture(b"2 1\n001002003004005006\n").unwrap();
    assert_eq!((c.width(), c.height()), (2, 1));
    assert_eq!(c.get_pos(1, 0), rgb(4, 5, 6));
}

#[test]
fn picture_refuses_other_texts() {
    for bad in [
        &b""[..],
        b"2 1\n001002003004005006",
        b"2 1\n001002003004005006\n\n",
        b"02 1\n001002003004005006\n",
        b"2  1\n001002003004005006\n",
        b"2 1\n001002003\n004005006\n",
        b"2 1\n001002003004005256\n",
        b"2 1\n+01002003004005006\n",
        b"2 2\n001002003004005006\n",
        b"1 1\n000000000 \n",
        b"99999999999999999999999 0\n",
    ] {
        assert!(parse_picture(bad).is_none(), "{:?}", String::from_utf8_lossy(bad));
    }
}

#[test]
fn decimal_usize_output() {
    for n in [0usize, 9, 10, 65536, usize::MAX] {
        let mut out = Vec::new();
        push_decimal_usize(&mut out, n);
        assert_eq!(out, n.to_string().into_bytes());
    }
}

#[test]
fn editor_keeps_sizes_to_sixteen_bits() {
    let e = Editor::new(65537, 70000, 3, Vec::new());
    assert_eq!((e.width, e.height), (1, 4464));
    assert_eq!((e.columns, e.rows), (65537, 70000));
    let mut e = Editor::new(65536, 2, 1, Vec::new());
    assert_eq!(e.width, 0);
    let s = e.step(EditorEvent::Key(KeyEvent { key: Key::Left, kind: KeyKind::Press }));
    assert_eq!(s.action, EditorAction::Nothing);
    let s = e.step(EditorEvent::Key(KeyEvent { key: Key::Up, kind: KeyKind::Press }));
    assert_eq!(s.action, EditorAction::Moved(Direction::Up));
    assert_eq!((e.x, e.y), (0, 0));
}

#[test]
fn redraw_breaks_rows_at_the_sixteen_bit_width() {
    let c = Canvas::from_pixels(65537, 1, vec![rgb(0, 0, 0); 65537]).unwrap();
    let e = Editor::new(65537, 1, 0, Vec::new());
    let out = e.redraw(&c);
    let cell = b"\x1b[48;2;0;0;0m  \x1b[0m".to_vec();
    let mut expected = Vec::new();
    for _ in 0..65537 {
        expected.extend_from_slice(&cell);
        expected.push(b'\n');
    }
    assert_eq!(out, expected);
    let full = c.render();
    assert_eq!(full.iter().filter(|b| **b == b'\n').count(), 1);
}
