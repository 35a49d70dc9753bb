use chess_state::{CastlingRights, ErrorKind};

fn rights(wk: bool, wq: bool, bk: bool, bq: bool) -> CastlingRights {
    CastlingRights {
        white_king_side: wk,
        white_queen_side: wq,
        black_king_side: bk,
        black_queen_side: bq,
    }
}

#[test]
fn castling_empty_is_all_false() {
    assert_eq!(CastlingRights::from_str(""), Ok(rights(false, false, false, false)));
}

#[test]
fn castling_dash_is_all_false() {
    assert_eq!(CastlingRights::from_str("-"), Ok(rights(false, false, false, false)));
}

#[test]
fn castling_all_flags_is_all_true() {
    assert_eq!(CastlingRights::from_str("KQkq"), Ok(rights(true, true, true, true)));
}

#[test]
fn castling_order_does_not_matter() {
    assert_eq!(CastlingRights::from_str("qkQK"), CastlingRights::from_str("KQkq"));
    assert_eq!(CastlingRights::from_str("kK"), CastlingRights::from_str("Kk"));
}

#[test]
fn castling_single_flags() {
    assert_eq!(CastlingRights::from_str("K"), Ok(rights(true, false, false, false)));
    assert_eq!(CastlingRights::from_str("Q"), Ok(rights(false, true, false, false)));
    assert_eq!(CastlingRights::from_str("k"), Ok(rights(false, false, true, false)));
    assert_eq!(CastlingRights::from_str("q"), Ok(rights(false, false, false, true)));
}

#[test]
fn castling_repeated_flag_counts_once() {
    assert_eq!(CastlingRights::from_str("KKq"), Ok(rights(true, false, false, true)));
}

#[test]
fn castling_rejects_other_characters() {
    assert_eq!(CastlingRights::from_str("KQxq"), Err(ErrorKind::MalformedCharacter));
    assert_eq!(CastlingRights::from_str("x"), Err(ErrorKind::MalformedCharacter));
    assert_eq!(CastlingRights::from_str(" "), Err(ErrorKind::MalformedCharacter));
}

#[test]
fn castling_dash_stands_alone() {
    assert_eq!(CastlingRights::from_str("--"), Err(ErrorKind::MalformedCharacter));
    assert_eq!(CastlingRights::from_str("-K"), Err(ErrorKind::MalformedCharacter));
    assert_eq!(CastlingRights::from_str("K-"), Err(ErrorKind::MalformedCharacter));
}
