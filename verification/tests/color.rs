use minisvg::color::{hex_digit, parse_color, OPAQUE_BLACK};

#[test]
fn parses_long_hex_color() {
    assert_eq!(parse_color(b"#e3e3e3"), Some(0xE3E3E3FF));
    assert_eq!(parse_color(b"#12AbEf"), Some(0x12ABEFFF));
}

#[test]
fn short_hex_color_doubles_each_digit() {
    assert_eq!(parse_color(b"#F00"), Some(0xFF0000FF));
    assert_eq!(parse_color(b"#abc"), parse_color(b"#aabbcc"));
    assert_eq!(parse_color(b"#1a9"), Some(0x11AA99FF));
}

#[test]
fn none_means_no_paint() {
    assert_eq!(parse_color(b"none"), None);
    assert_eq!(parse_color(b"None"), Some(OPAQUE_BLACK));
}

#[test]
fn other_values_are_opaque_black() {
    assert_eq!(parse_color(b"red"), Some(0x000000FF));
    assert_eq!(parse_color(b""), Some(0x000000FF));
    assert_eq!(parse_color(b"#12345"), Some(0x000000FF));
    assert_eq!(parse_color(b"#"), Some(0x000000FF));
}

#[test]
fn non_hex_digits_count_as_zero() {
    assert_eq!(parse_color(b"#zz00ff"), Some(0x0000FFFF));
    assert_eq!(hex_digit(b'g'), 0);
    assert_eq!(hex_digit(b'F'), 15);
    assert_eq!(hex_digit(b'7'), 7);
}

#[test]
fn parsed_colors_are_opaque() {
    for v in [&b"#000"[..], b"#123456", b"bogus", b"#abcdef", b"#fff"] {
        assert_eq!(parse_color(v).unwrap() & 0xFF, 0xFF);
    }
}
