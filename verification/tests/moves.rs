use chess_state::{ErrorKind, Move, PieceKind, Square};

#[test]
fn move_of_four_characters() {
    assert_eq!(
        Move::from_uci("e2e4"),
        Ok(Move {
            start: Square { file: 4, rank: 1 },
            end: Square { file: 4, rank: 3 },
            end_piece: None,
        })
    );
}

#[test]
fn move_with_promotion() {
    assert_eq!(
        Move::from_uci("e7e8q"),
        Ok(Move {
            start: Square { file: 4, rank: 6 },
            end: Square { file: 4, rank: 7 },
            end_piece: Some(PieceKind::Queen),
        })
    );
    assert_eq!(Move::from_uci("a2a1n").unwrap().end_piece, Some(PieceKind::Knight));
    assert_eq!(Move::from_uci("a2a1R").unwrap().end_piece, Some(PieceKind::Rook));
    assert_eq!(Move::from_uci("a2a1b").unwrap().end_piece, Some(PieceKind::Bishop));
}

#[test]
fn move_ignores_what_follows_the_fifth_character() {
    assert_eq!(Move::from_uci("e7e8q\n"), Move::from_uci("e7e8q"));
    assert_eq!(Move::from_uci("e7e8qxyz"), Move::from_uci("e7e8q"));
}

#[test]
fn move_too_short_is_a_missing_field() {
    for text in ["", "e", "e2", "e2e"] {
        assert_eq!(Move::from_uci(text), Err(ErrorKind::MissingField), "{:?}", text);
    }
}

#[test]
fn move_with_unknown_promotion_letter_is_malformed() {
    assert_eq!(Move::from_uci("e7e8x"), Err(ErrorKind::MalformedCharacter));
    assert_eq!(Move::from_uci("e2e4\n"), Err(ErrorKind::MalformedCharacter));
    assert_eq!(Move::from_uci("e2e4 "), Err(ErrorKind::MalformedCharacter));
}

#[test]
fn move_squares_are_not_held_to_the_board() {
    assert_eq!(
        Move::from_uci("i9z0"),
        Ok(Move {
            start: Square { file: 8, rank: 8 },
            end: Square { file: 25, rank: -1 },
            end_piece: None,
        })
    );
}
