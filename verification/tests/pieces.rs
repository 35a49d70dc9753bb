use chess_state::{Color, ErrorKind, Piece, PieceKind};

#[test]
fn color_letters_in_either_case() {
    assert_eq!(Color::from_char('w'), Ok(Color::White));
    assert_eq!(Color::from_char('W'), Ok(Color::White));
    assert_eq!(Color::from_char('b'), Ok(Color::Black));
    assert_eq!(Color::from_char('B'), Ok(Color::Black));
}

#[test]
fn color_fails_on_every_other_character() {
    for code in 0u32..=0x10ffff {
        if let Some(c) = char::from_u32(code) {
            if !"wWbB".contains(c) {
                assert_eq!(Color::from_char(c), Err(ErrorKind::MalformedCharacter));
            }
        }
    }
}

#[test]
fn color_from_str_reads_first_letter_only() {
    assert_eq!(Color::from_str("w"), Ok(Color::White));
    assert_eq!(Color::from_str("black"), Ok(Color::Black));
    assert_eq!(Color::from_str("Wx"), Ok(Color::White));
    assert_eq!(Color::from_str("xw"), Err(ErrorKind::MalformedCharacter));
    assert_eq!(Color::from_str(""), Err(ErrorKind::MissingField));
}

#[test]
fn color_opposite_flips() {
    assert_eq!(Color::White.opposite(), Color::Black);
    assert_eq!(Color::Black.opposite(), Color::White);
}

#[test]
fn piece_kind_letters_in_either_case() {
    let kinds = [
        ('p', PieceKind::Pawn),
        ('n', PieceKind::Knight),
        ('b', PieceKind::Bishop),
        ('r', PieceKind::Rook),
        ('q', PieceKind::Queen),
        ('k', PieceKind::King),
    ];
    for (letter, kind) in kinds {
        assert_eq!(PieceKind::from_char(letter), Ok(kind));
        assert_eq!(PieceKind::from_char(letter.to_ascii_uppercase()), Ok(kind));
    }
}

#[test]
fn piece_kind_fails_on_every_other_character() {
    for code in 0u32..=0x10ffff {
        if let Some(c) = char::from_u32(code) {
            if !"pnbrqkPNBRQK".contains(c) {
                assert_eq!(PieceKind::from_char(c), Err(ErrorKind::MalformedCharacter));
            }
        }
    }
}

#[test]
fn piece_kind_from_str_reads_first_letter_only() {
    assert_eq!(PieceKind::from_str("q"), Ok(PieceKind::Queen));
    assert_eq!(PieceKind::from_str("Nf3"), Ok(PieceKind::Knight));
    assert_eq!(PieceKind::from_str("\n"), Err(ErrorKind::MalformedCharacter));
    assert_eq!(PieceKind::from_str(""), Err(ErrorKind::MissingField));
}

#[test]
fn piece_color_follows_case_and_kind_follows_letter() {
    for letter in "pnbrqkPNBRQK".chars() {
        let piece = Piece::from_char(letter).unwrap();
        assert_eq!(Ok(piece.kind), PieceKind::from_char(letter));
        let expected = if letter.is_ascii_uppercase() { Color::White } else { Color::Black };
        assert_eq!(piece.color, expected);
    }
}

#[test]
fn piece_fails_where_kind_fails() {
    for code in 0u32..=0x10ffff {
        if let Some(c) = char::from_u32(code) {
            assert_eq!(Piece::from_char(c).is_ok(), PieceKind::from_char(c).is_ok());
        }
    }
    assert_eq!(Piece::from_char('1'), Err(ErrorKind::MalformedCharacter));
    assert_eq!(Piece::from_char('/'), Err(ErrorKind::MalformedCharacter));
}

#[test]
fn piece_from_str_reads_first_letter_only() {
    assert_eq!(
        Piece::from_str("Kk"),
        Ok(Piece { color: Color::White, kind: PieceKind::King })
    );
    assert_eq!(
        Piece::from_str("r"),
        Ok(Piece { color: Color::Black, kind: PieceKind::Rook })
    );
    assert_eq!(Piece::from_str("x"), Err(ErrorKind::MalformedCharacter));
    assert_eq!(Piece::from_str(""), Err(ErrorKind::MissingField));
}

#[test]
fn piece_letter_reads_back() {
    for letter in "pnbrqkPNBRQK".chars() {
        assert_eq!(Piece::from_char(letter).unwrap().to_char(), letter);
    }
    let queen = Piece { color: Color::White, kind: PieceKind::Queen };
    assert_eq!(queen.to_char(), 'Q');
    assert_eq!(Piece::from_char(queen.to_char()), Ok(queen));
}
