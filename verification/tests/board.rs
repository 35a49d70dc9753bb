use chess_state::{Board, Color, ErrorKind, Piece, PieceKind};

const START: &str = "rnbqkbnr/pppppppp/8/8/8/8/PPPPPPPP/RNBQKBNR";

fn piece(color: Color, kind: PieceKind) -> Option<Piece> {
    Some(Piece { color, kind })
}

#[test]
fn new_board_is_empty() {
    let board = Board::new();
    for rank in 0..8 {
        for file in 0..8 {
            assert_eq!(board.raw[rank][file], None);
        }
    }
}

#[test]
fn set_writes_one_cell() {
    let mut board = Board::new();
    board.set(3, 4, piece(Color::White, PieceKind::Pawn));
    for rank in 0..8 {
        for file in 0..8 {
            let expected = if (rank, file) == (3, 4) {
                piece(Color::White, PieceKind::Pawn)
            } else {
                None
            };
            assert_eq!(board.raw[rank][file], expected);
        }
    }
    board.set(3, 4, None);
    assert_eq!(board, Board::new());
}

#[test]
fn start_position_is_read_rank_by_rank() {
    let board = Board::from_fen_board(START).unwrap();
    let back = [
        PieceKind::Rook,
        PieceKind::Knight,
        PieceKind::Bishop,
        PieceKind::Queen,
        PieceKind::King,
        PieceKind::Bishop,
        PieceKind::Knight,
        PieceKind::Rook,
    ];
    for file in 0..8 {
        assert_eq!(board.raw[0][file], piece(Color::White, back[file]));
        assert_eq!(board.raw[1][file], piece(Color::White, PieceKind::Pawn));
        for rank in 2..6 {
            assert_eq!(board.raw[rank][file], None);
        }
        assert_eq!(board.raw[6][file], piece(Color::Black, PieceKind::Pawn));
        assert_eq!(board.raw[7][file], piece(Color::Black, back[file]));
    }
}

#[test]
fn digits_skip_files() {
    let board = Board::from_fen_board("8/8/8/2k1P3/8/8/8/7R").unwrap();
    assert_eq!(board.raw[4][2], piece(Color::Black, PieceKind::King));
    assert_eq!(board.raw[4][3], None);
    assert_eq!(board.raw[4][4], piece(Color::White, PieceKind::Pawn));
    assert_eq!(board.raw[0][7], piece(Color::White, PieceKind::Rook));
    assert_eq!(board.raw[0][6], None);
}

#[test]
fn empty_placement_is_the_empty_board() {
    assert_eq!(Board::from_fen_board(""), Ok(Board::new()));
}

#[test]
fn short_placements_are_read_as_far_as_they_go() {
    let board = Board::from_fen_board("k").unwrap();
    assert_eq!(board.raw[7][0], piece(Color::Black, PieceKind::King));
    let board = Board::from_fen_board("/3Q").unwrap();
    assert_eq!(board.raw[6][3], piece(Color::White, PieceKind::Queen));
    assert_eq!(board.raw[7][0], None);
}

#[test]
fn slashes_alone_write_nothing() {
    assert_eq!(Board::from_fen_board("////////////"), Ok(Board::new()));
    assert_eq!(Board::from_fen_board("8/8/8/8/8/8/8/8/"), Ok(Board::new()));
}

#[test]
fn unknown_letter_is_malformed() {
    assert_eq!(Board::from_fen_board("8/8/8/3x4/8/8/8/8"), Err(ErrorKind::MalformedCharacter));
    assert_eq!(Board::from_fen_board("9"), Err(ErrorKind::MalformedCharacter));
    assert_eq!(Board::from_fen_board("0"), Err(ErrorKind::MalformedCharacter));
    assert_eq!(Board::from_fen_board("8 "), Err(ErrorKind::MalformedCharacter));
}

#[test]
fn too_many_files_is_out_of_range() {
    assert_eq!(Board::from_fen_board("ppppppppp"), Err(ErrorKind::OutOfRange));
    assert_eq!(Board::from_fen_board("81"), Err(ErrorKind::OutOfRange));
    assert_eq!(Board::from_fen_board("8p"), Err(ErrorKind::OutOfRange));
    assert_eq!(Board::from_fen_board("k8"), Err(ErrorKind::OutOfRange));
    assert_eq!(Board::from_fen_board("45"), Err(ErrorKind::OutOfRange));
}

#[test]
fn too_many_ranks_is_out_of_range() {
    assert_eq!(Board::from_fen_board("8/8/8/8/8/8/8/8/8"), Err(ErrorKind::OutOfRange));
    assert_eq!(Board::from_fen_board("////////k"), Err(ErrorKind::OutOfRange));
    assert_eq!(Board::from_fen_board("////////1"), Err(ErrorKind::OutOfRange));
}

#[test]
fn first_failing_character_decides() {
    assert_eq!(Board::from_fen_board("x/ppppppppp"), Err(ErrorKind::MalformedCharacter));
    assert_eq!(Board::from_fen_board("ppppppppp/x"), Err(ErrorKind::OutOfRange));
    // A letter that names no piece is malformed wherever it stands.
    assert_eq!(Board::from_fen_board("8x"), Err(ErrorKind::MalformedCharacter));
}

#[test]
fn start_position_is_written_as_it_was_read() {
    let board = Board::from_fen_board(START).unwrap();
    assert_eq!(board.to_fen_board(), START);
}

#[test]
fn empty_board_is_written_as_eights() {
    assert_eq!(Board::new().to_fen_board(), "8/8/8/8/8/8/8/8");
}

#[test]
fn runs_are_written_as_one_digit() {
    let board = Board::from_fen_board("44/121211/8/8/8/8/8/P6p").unwrap();
    assert_eq!(board.to_fen_board(), "8/8/8/8/8/8/8/P6p");
    let board = Board::from_fen_board("1k11K3/8/8/8/8/8/8/8").unwrap();
    assert_eq!(board.to_fen_board(), "1k2K3/8/8/8/8/8/8/8");
}

#[test]
fn written_placements_read_back() {
    let placements = [
        START,
        "8/8/8/8/8/8/8/8",
        "r3k2r/p1ppqpb1/bn2pnp1/3PN3/1p2P3/2N2Q1p/PPPBBPPP/R3K2R",
        "8/2p5/3p4/KP5r/1R3p1k/8/4P1P1/8",
        "rnbq1k1r/pp1Pbppp/2p5/8/2B5/8/PPP1NnPP/RNBQK2R",
        "44/1p6/n7/7P/PPPPPPPP/pppppppp/k1K1k1K1/1Q1q1Q1q",
    ];
    for placement in placements {
        let board = Board::from_fen_board(placement).unwrap();
        let text = board.to_fen_board();
        assert_eq!(Board::from_fen_board(&text), Ok(board));
    }
}

#[test]
fn every_single_piece_board_reads_back() {
    for letter in "pnbrqkPNBRQK".chars() {
        for rank in 0..8 {
            for file in 0..8 {
                let mut board = Board::new();
                board.set(rank, file, Some(Piece::from_char(letter).unwrap()));
                assert_eq!(Board::from_fen_board(&board.to_fen_board()), Ok(board));
            }
        }
    }
}
