use writest::colour::{cursor_colour_code, inverse, parse_u8, read_colour_entry, strip_newlines, ColourEntry, Rgb};

fn rgb(red: u8, green: u8, blue: u8) -> Rgb {
    Rgb { red, green, blue }
}

#[test]
fn parse_u8_reads_decimal_bytes() {
    assert_eq!(parse_u8(b"0"), Some(0));
    assert_eq!(parse_u8(b"007"), Some(7));
    assert_eq!(parse_u8(b"255"), Some(255));
    assert_eq!(parse_u8(b"+12"), Some(12));
    assert_eq!(parse_u8(b"0000000000255"), Some(255));
}

#[test]
fn parse_u8_refuses_what_std_refuses() {
    for bad in [&b""[..], b"+", b"-", b"-1", b"256", b"999", b"1a", b" 1", b"12\n", b"++1"] {
        assert_eq!(parse_u8(bad), None, "{:?}", bad);
        let s = std::str::from_utf8(bad).unwrap();
        assert!(s.parse::<u8>().is_err());
    }
}

#[test]
fn parse_u8_agrees_with_std_on_all_three_byte_digit_strings() {
    for a in b'0'..=b'9' {
        for b in b'0'..=b'9' {
            for c in b'0'..=b'9' {
                let s = [a, b, c];
                let expected = std::str::from_utf8(&s).unwrap().parse::<u8>().ok();
                assert_eq!(parse_u8(&s), expected);
            }
        }
    }
}

#[test]
fn shorthand_letters_give_their_colours() {
    assert_eq!(read_colour_entry(b"r\n"), ColourEntry::Colour(rgb(255, 0, 0)));
    assert_eq!(read_colour_entry(b"g\n"), ColourEntry::Colour(rgb(0, 255, 0)));
    assert_eq!(read_colour_entry(b"b\n"), ColourEntry::Colour(rgb(0, 0, 255)));
    assert_eq!(read_colour_entry(b"p\n"), ColourEntry::Colour(rgb(255, 0, 255)));
    assert_eq!(read_colour_entry(b"c\n"), ColourEntry::Colour(rgb(0, 255, 255)));
    assert_eq!(read_colour_entry(b"y\n"), ColourEntry::Colour(rgb(255, 255, 0)));
    assert_eq!(read_colour_entry(b"w\n"), ColourEntry::Colour(rgb(255, 255, 255)));
    assert_eq!(read_colour_entry(b"k\n"), ColourEntry::Colour(rgb(0, 0, 0)));
}

#[test]
fn other_two_byte_lines_give_black() {
    assert_eq!(read_colour_entry(b"x\n"), ColourEntry::Colour(rgb(0, 0, 0)));
    assert_eq!(read_colour_entry(b"rr"), ColourEntry::Colour(rgb(0, 0, 0)));
    assert_eq!(read_colour_entry(b"R\n"), ColourEntry::Colour(rgb(0, 0, 0)));
}

#[test]
fn nine_digit_codes_give_their_colours() {
    assert_eq!(read_colour_entry(b"255000128\n"), ColourEntry::Colour(rgb(255, 0, 128)));
    assert_eq!(read_colour_entry(b"001002003\n"), ColourEntry::Colour(rgb(1, 2, 3)));
    assert_eq!(read_colour_entry(b"+12+34+56\n"), ColourEntry::Colour(rgb(12, 34, 56)));
    // Without the final newline the last group has four digits.
    assert_eq!(read_colour_entry(b"0000000255"), ColourEntry::Colour(rgb(0, 0, 255)));
}

#[test]
fn unreadable_codes_are_reported() {
    assert_eq!(read_colour_entry(b"256000000\n"), ColourEntry::Unreadable);
    assert_eq!(read_colour_entry(b"abc000000\n"), ColourEntry::Unreadable);
    assert_eq!(read_colour_entry(b"0000002550"), ColourEntry::Unreadable);
}

#[test]
fn other_lengths_are_wrong() {
    assert_eq!(read_colour_entry(b"\n"), ColourEntry::WrongLength);
    assert_eq!(read_colour_entry(b"12\n"), ColourEntry::WrongLength);
    assert_eq!(read_colour_entry(b"2550000000\n"), ColourEntry::WrongLength);
    assert_eq!(read_colour_entry(b"white\n"), ColourEntry::WrongLength);
}

#[test]
fn colour_code_round_trip() {
    for c in [rgb(0, 0, 0), rgb(255, 255, 255), rgb(9, 99, 199), rgb(100, 10, 1)] {
        let line = format!("{:03}{:03}{:03}\n", c.red, c.green, c.blue);
        assert_eq!(read_colour_entry(line.as_bytes()), ColourEntry::Colour(c));
    }
}

#[test]
fn strip_newlines_removes_every_newline() {
    assert_eq!(strip_newlines(b"\n1\n2\n"), b"12".to_vec());
    assert_eq!(strip_newlines(b""), Vec::<u8>::new());
}

#[test]
fn inverse_and_cursor_code() {
    assert_eq!(inverse(rgb(0, 128, 255)), rgb(255, 127, 0));
    assert_eq!(cursor_colour_code(rgb(0, 0, 0)), b"ffffff".to_vec());
    assert_eq!(cursor_colour_code(rgb(255, 255, 255)), b"000000".to_vec());
    assert_eq!(cursor_colour_code(rgb(255, 0, 16)), b"00ffef".to_vec());
    let c = rgb(18, 200, 77);
    let expected = format!("{:02x}{:02x}{:02x}", 255 - 18, 255 - 200, 255 - 77);
    assert_eq!(cursor_colour_code(c), expected.into_bytes());
}
