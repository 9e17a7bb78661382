use befreak::program::{LoadError, Program};

#[test]
fn from_str_pads_short_rows() {
    let p = Program::from_str("ab\ncdef").unwrap();
    assert_eq!(p.rows(), 2);
    assert_eq!(p.cols(), 4);
    assert_eq!(p.instruction_at((0, 0)).unwrap().c, b'a');
    assert_eq!(p.instruction_at((3, 0)).unwrap().c, b' ');
    assert_eq!(p.instruction_at((3, 1)).unwrap().c, b'f');
    assert!(p.instruction_at((4, 0)).is_none());
    assert!(p.instruction_at((0, 2)).is_none());
}

#[test]
fn from_str_strips_carriage_return_before_line_feed() {
    let p = Program::from_str("a\r\nbc").unwrap();
    assert_eq!(p.rows(), 2);
    assert_eq!(p.cols(), 2);
    assert_eq!(p.instruction_at((0, 0)).unwrap().c, b'a');
    assert_eq!(p.instruction_at((1, 0)).unwrap().c, b' ');
}

#[test]
fn from_str_rejects_control_character() {
    let e = Program::from_str("ab\nc\td").unwrap_err();
    assert_eq!(e, LoadError::InvalidChar { row: 1, col: 1 });
}

#[test]
fn from_str_rejects_lone_carriage_return() {
    let e = Program::from_str("a\rb").unwrap_err();
    assert_eq!(e, LoadError::InvalidChar { row: 0, col: 1 });
}

#[test]
fn from_str_rejects_non_ascii() {
    let e = Program::from_str("a\u{e9}").unwrap_err();
    assert!(matches!(e, LoadError::InvalidChar { row: 0, col: 1 }));
}

#[test]
fn from_str_rejects_empty_text() {
    assert_eq!(Program::from_str("").unwrap_err(), LoadError::EmptyProgram);
}

#[test]
fn from_str_rejects_text_without_a_cell() {
    assert_eq!(Program::from_str("\n\n").unwrap_err(), LoadError::EmptyProgram);
}

#[test]
fn lookup_starts_east_of_last_halt() {
    let p = Program::from_str("@ab").unwrap();
    assert_eq!(p.lookup(), (1, 0));
}

#[test]
fn lookup_wraps_on_the_halt_row() {
    let p = Program::from_str("ab@").unwrap();
    assert_eq!(p.lookup(), (0, 0));
}

#[test]
fn lookup_takes_the_last_halt_in_row_major_order() {
    let p = Program::from_str("@..\n.@.").unwrap();
    assert_eq!(p.lookup(), (2, 1));
}

#[test]
fn lookup_defaults_to_origin_without_halt() {
    let p = Program::from_str("abc\ndef").unwrap();
    assert_eq!(p.lookup(), (0, 0));
}
