use chess_state::{ErrorKind, Square};

#[test]
fn square_e4() {
    assert_eq!(Square::from_str("e4"), Ok(Square { file: 4, rank: 3 }));
}

#[test]
fn square_a1() {
    assert_eq!(Square::from_str("a1"), Ok(Square { file: 0, rank: 0 }));
}

#[test]
fn square_h8() {
    assert_eq!(Square::from_str("h8"), Ok(Square { file: 7, rank: 7 }));
}

#[test]
fn square_reads_two_characters_and_ignores_the_rest() {
    assert_eq!(Square::from_str("c6xyz"), Ok(Square { file: 2, rank: 5 }));
}

#[test]
fn square_needs_two_characters() {
    assert_eq!(Square::from_str(""), Err(ErrorKind::MissingField));
    assert_eq!(Square::from_str("e"), Err(ErrorKind::MissingField));
}

#[test]
fn square_off_the_board_is_read_as_it_is() {
    assert_eq!(Square::from_str("i9"), Ok(Square { file: 8, rank: 8 }));
    assert_eq!(Square::from_str("A0"), Ok(Square { file: -32, rank: -1 }));
    assert_eq!(Square::from_str("--"), Ok(Square { file: -52, rank: -4 }));
    let top = Square::from_str("\u{10ffff}\u{10ffff}").unwrap();
    assert_eq!(top, Square { file: 0x10ffff - 97, rank: 0x10ffff - 49 });
}

#[test]
fn square_from_chars_is_distance_from_a_and_1() {
    assert_eq!(Square::from_chars('b', '7'), Square { file: 1, rank: 6 });
    assert_eq!(Square::from_chars('\0', '\0'), Square { file: -97, rank: -49 });
}

#[test]
fn square_on_board_test() {
    assert!(Square { file: 0, rank: 0 }.is_on_board());
    assert!(Square { file: 7, rank: 7 }.is_on_board());
    assert!(!Square { file: 8, rank: 0 }.is_on_board());
    assert!(!Square { file: 0, rank: 8 }.is_on_board());
    assert!(!Square { file: -1, rank: 3 }.is_on_board());
    assert!(!Square { file: 3, rank: -1 }.is_on_board());
}
