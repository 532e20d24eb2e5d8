use minisvg::path::{PathCommandState, PathLexeme, PathParser, PathStep};

fn lexemes(data: &[u8]) -> Vec<PathLexeme<'_>> {
    let mut parser = PathParser::new(data);
    let mut out = Vec::new();
    while let Some(l) = parser.next_lexeme() {
        out.push(l);
    }
    out
}

#[test]
fn path_data_splits_into_commands_and_numbers() {
    assert_eq!(
        lexemes(b"M10,20L-5.5e2 .5.5z"),
        vec![
            PathLexeme::Command(b'M'),
            PathLexeme::Number(b"10"),
            PathLexeme::Number(b"20"),
            PathLexeme::Command(b'L'),
            PathLexeme::Number(b"-5.5e2"),
            PathLexeme::Number(b".5"),
            PathLexeme::Number(b".5"),
            PathLexeme::Command(b'z'),
        ]
    );
}

#[test]
fn a_sign_starts_a_new_number_unless_it_follows_an_exponent() {
    assert_eq!(
        lexemes(b"1-2+3e-4E+5"),
        vec![
            PathLexeme::Number(b"1"),
            PathLexeme::Number(b"-2"),
            PathLexeme::Number(b"+3e-4E+5"),
        ]
    );
}

#[test]
fn lexing_stops_at_a_byte_that_starts_nothing() {
    let mut parser = PathParser::new(b"  # 1");
    assert_eq!(parser.next_lexeme(), None);
    assert_eq!(parser.pos, 2);
    assert_eq!(parser.next_number_bytes(), None);
    assert_eq!(parser.pos, 2);
}

#[test]
fn numbers_after_a_moveto_are_lines_of_the_same_kind() {
    let mut s = PathCommandState::new();
    assert_eq!(s.on_number(), PathStep::MoveTo { relative: false });
    assert_eq!(s.on_number(), PathStep::LineTo { relative: false });
    assert!(!s.on_command(b'm'));
    assert_eq!(s.on_number(), PathStep::MoveTo { relative: true });
    assert_eq!(s.on_number(), PathStep::LineTo { relative: true });
    assert_eq!(s.active_cmd, b'l');
}

#[test]
fn smooth_curves_reflect_only_after_their_own_family() {
    let mut s = PathCommandState::new();
    s.on_command(b'C');
    assert_eq!(s.on_number(), PathStep::CubicTo { relative: false });
    s.on_command(b's');
    assert_eq!(s.on_number(), PathStep::SmoothCubicTo { relative: true, reflect: true });
    s.on_command(b'T');
    assert_eq!(s.on_number(), PathStep::SmoothQuadTo { relative: false, reflect: false });
    assert_eq!(s.on_number(), PathStep::SmoothQuadTo { relative: false, reflect: true });
    s.on_command(b'Q');
    assert_eq!(s.on_number(), PathStep::QuadTo { relative: false });
    s.on_command(b'S');
    assert_eq!(s.on_number(), PathStep::SmoothCubicTo { relative: false, reflect: false });
}

#[test]
fn close_path_resets_the_curve_family() {
    let mut s = PathCommandState::new();
    s.on_command(b'C');
    s.on_number();
    assert!(s.on_command(b'z'));
    assert_eq!(s.last_curve_cmd, b'Z');
    s.on_command(b'S');
    assert_eq!(s.on_number(), PathStep::SmoothCubicTo { relative: false, reflect: false });
}

#[test]
fn lines_and_unknown_commands() {
    let mut s = PathCommandState::new();
    s.on_command(b'h');
    assert_eq!(s.on_number(), PathStep::HorizontalTo { relative: true });
    s.on_command(b'V');
    assert_eq!(s.on_number(), PathStep::VerticalTo { relative: false });
    s.on_command(b'A');
    assert_eq!(s.on_number(), PathStep::Skip);
    assert_eq!(s.last_curve_cmd, b'V');
}
