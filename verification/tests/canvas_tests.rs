use writest::canvas::{cell_bytes, Canvas};
use writest::colour::{push_decimal, Rgb};

fn rgb(red: u8, green: u8, blue: u8) -> Rgb {
    Rgb { red, green, blue }
}

#[test]
fn from_pixels_checks_the_size() {
    assert!(Canvas::from_pixels(2, 2, vec![rgb(0, 0, 0); 3]).is_none());
    assert!(Canvas::from_pixels(usize::MAX, 2, vec![]).is_none());
    let c = Canvas::from_pixels(2, 3, vec![rgb(1, 2, 3); 6]).unwrap();
    assert_eq!(c.width(), 2);
    assert_eq!(c.height(), 3);
    assert_eq!(c.data().len(), 6);
}

#[test]
fn pixels_are_stored_row_by_row() {
    let px: Vec<Rgb> = (0..6).map(|i| rgb(i, 0, 0)).collect();
    let c = Canvas::from_pixels(3, 2, px).unwrap();
    assert_eq!(c.get_pos(0, 0), rgb(0, 0, 0));
    assert_eq!(c.get_pos(2, 0), rgb(2, 0, 0));
    assert_eq!(c.get_pos(0, 1), rgb(3, 0, 0));
    assert_eq!(c.get_pos(2, 1), rgb(5, 0, 0));
}

#[test]
fn set_then_get() {
    let mut c = Canvas::from_pixels(3, 2, vec![rgb(0, 0, 0); 6]).unwrap();
    c.set_pos(1, 1, rgb(9, 8, 7));
    assert_eq!(c.get_pos(1, 1), rgb(9, 8, 7));
    for y in 0..2 {
        for x in 0..3 {
            if (x, y) != (1, 1) {
                assert_eq!(c.get_pos(x, y), rgb(0, 0, 0));
            }
        }
    }
    assert_eq!(c.data()[4], rgb(9, 8, 7));
}

#[test]
fn decimal_is_written_without_leading_zeros() {
    for v in [0u8, 7, 10, 99, 100, 205, 255] {
        let mut out = b"x".to_vec();
        push_decimal(&mut out, v);
        assert_eq!(out, format!("x{}", v).into_bytes());
    }
}

#[test]
fn cell_bytes_colour_two_spaces() {
    assert_eq!(cell_bytes(rgb(255, 0, 12)), b"\x1b[48;2;255;0;12m  \x1b[0m".to_vec());
}

#[test]
fn render_draws_rows() {
    let c = Canvas::from_pixels(2, 2, vec![rgb(1, 2, 3), rgb(4, 5, 6), rgb(7, 8, 9), rgb(10, 11, 12)]).unwrap();
    let mut expected = String::new();
    for (i, p) in c.data().iter().enumerate() {
        expected.push_str(&format!("\x1b[48;2;{};{};{}m  \x1b[0m", p.red, p.green, p.blue));
        if (i + 1) % 2 == 0 {
            expected.push('\n');
        }
    }
    assert_eq!(c.render(), expected.into_bytes());
    let empty = Canvas::from_pixels(0, 5, vec![]).unwrap();
    assert_eq!(empty.render(), Vec::<u8>::new());
}
