//! The board, read from and written to the piece placement field of a
//! position record.

use vstd::prelude::*;
use vstd::string::StringExecFns;
use crate::error::ErrorKind;
use crate::piece::{char_of_piece, Color, Piece, PieceKind};
use crate::placement::{
    clear_run, empty_grid, is_grid, placement_of, placement_text, put, ranks_text, row_text,
    run_text, scan_from, scan_start, Grid, Scan,
};

verus! {

/// An 8×8 board; `raw[rank][file]` is the cell at that rank and file, rank 0
/// being the first rank and file 0 the `a` file.
#[derive(Debug, Clone, Copy, PartialEq, Eq)]
pub struct Board {
    pub raw: [[Option<Piece>; 8]; 8],
}

impl View for Board {
    type V = Grid;

    open spec fn view(&self) -> Grid {
        Seq::new(8, |rank: int| Seq::new(8, |file: int| self.raw[rank][file]))
    }
}

impl Board {
    /// The board with no piece on it.
    pub fn new() -> (board: Board)
        ensures
            board@ == empty_grid(),
    {
        let board = Board { raw: [[None; 8]; 8] };
        assert(board@ =~~= empty_grid());
        board
    }

    /// Writes `cell` at the given rank and file.
    pub fn set(&mut self, rank: usize, file: usize, cell: Option<Piece>)
        requires
            rank < 8,
            file < 8,
        ensures
            final(self)@ == put(old(self)@, rank as int, file as int, cell),
    {
        self.raw[rank][file] = cell;
        assert(self@ =~~= put(old(self)@, rank as int, file as int, cell));
    }

    /// Reads a board from the piece placement field of a position record.
    pub fn from_fen_board(fen_board: &str) -> (r: Result<Board, ErrorKind>)
        ensures
            match placement_of(fen_board@) {
                Ok(g) => r is Ok && r->Ok_0@ == g,
                Err(e) => r == Err::<Board, ErrorKind>(e),
            },
    {
        let mut board = Board::new();
        // The rank stops at -1: from there on nothing can be written.
        let mut rank: i32 = 7;
        let mut file: usize = 0;
        let ghost mut st = scan_start();
        proof {
            assert(fen_board@.skip(0) == fen_board@);
        }
        for c in it: fen_board.chars()
            invariant
                it.seq() == fen_board@,
                scan_from(scan_start(), fen_board@) == scan_from(st, fen_board@.skip(it.index() as int)),
                board@ == st.grid,
                st.file == file,
                file <= 8,
                st.rank <= 7,
                rank == if st.rank < 0 { -1 } else { st.rank },
        {
            proof {
                let rest = fen_board@.skip(it.index() as int);
                assert(rest[0] == c);
                assert(rest.drop_first() == fen_board@.skip(it.index() + 1));
            }
            if c == '/' {
                if rank >= 0 {
                    rank = rank - 1;
                }
                file = 0;
                proof {
                    st = Scan { grid: st.grid, rank: st.rank - 1, file: 0 };
                }
            } else if '1' <= c && c <= '8' {
                let n: usize = (c as u32 - '0' as u32) as usize;
                if rank < 0 || file + n > 8 {
                    return Err(ErrorKind::OutOfRange);
                }
                let ghost before = board@;
                let first = file;
                assert(board@ =~~= clear_run(before, rank as int, first as int, 0));
                while file < first + n
                    invariant
                        is_grid(before),
                        0 <= rank < 8,
                        first <= file <= first + n <= 8,
                        board@ == clear_run(before, rank as int, first as int, file - first),
                    decreases first + n - file,
                {
                    board.set(rank as usize, file, None);
                    file = file + 1;
                    assert(board@ =~~= clear_run(before, rank as int, first as int, file - first));
                }
                proof {
                    st = Scan { grid: board@, rank: st.rank, file: st.file + n };
                }
            } else {
                match Piece::from_char(c) {
                    Err(e) => {
                        return Err(e);
                    },
                    Ok(piece) => {
                        if rank < 0 || file >= 8 {
                            return Err(ErrorKind::OutOfRange);
                        }
                        board.set(rank as usize, file, Some(piece));
                        file = file + 1;
                        proof {
                            st = Scan { grid: board@, rank: st.rank, file: st.file + 1 };
                        }
                    },
                }
            }
        }
        proof {
            assert(fen_board@.skip(fen_board@.len() as int) == Seq::<char>::empty());
        }
        Ok(board)
    }

    /// Writes the board down as a piece placement, each run of empty
    /// squares as one digit.
    pub fn to_fen_board(&self) -> (text: String)
        ensures
            text@ == placement_text(self@),
    {
        let mut text = String::new();
        let mut left: usize = 8;
        proof {
            assert(Seq::<char>::empty() + ranks_text(self@, 7) == ranks_text(self@, 7));
        }
        while left > 0
            invariant
                left <= 8,
                left > 0 ==> placement_text(self@) == text@ + ranks_text(self@, left - 1),
                left == 0 ==> placement_text(self@) == text@,
            decreases left,
        {
            let rank: usize = left - 1;
            let ghost row = self@[rank as int];
            let ghost above = text@;
            let mut run: usize = 0;
            let mut file: usize = 0;
            while file < 8
                invariant
                    rank < 8,
                    row == self@[rank as int],
                    run <= file <= 8,
                    above + row_text(row, 0, 0) == text@ + row_text(row, file as int, run as int),
                decreases 8 - file,
            {
                let ghost before = text@;
                let ghost pending = run as int;
                let cell = self.raw[rank][file];
                assert(row[file as int] == cell);
                match cell {
                    None => {
                        run = run + 1;
                    },
                    Some(piece) => {
                        if run > 0 {
                            text.append(run_str(run));
                            run = 0;
                        }
                        text.append(piece_str(piece));
                        proof {
                            let rest = row_text(row, file + 1, 0);
                            assert(before + (run_text(pending) + seq![char_of_piece(piece)] + rest)
                                =~= text@ + rest);
                        }
                    },
                }
                file = file + 1;
            }
            if run > 0 {
                text.append(run_str(run));
            }
            if rank > 0 {
                text.append("/");
                proof {
                    reveal_strlit("/");
                    let below = ranks_text(self@, rank - 1);
                    assert(above + (row_text(row, 0, 0) + seq!['/'] + below) == text@ + below);
                }
            }
            left = rank;
        }
        text
    }
}

/// A board is what its cells are: two boards that look alike to contracts
/// are the same board.
pub proof fn lemma_board_by_view(a: Board, b: Board)
    requires
        a@ == b@,
    ensures
        a == b,
{
    assert forall|rank: int| 0 <= rank < 8 implies a.raw[rank] == b.raw[rank] by {
        assert forall|file: int| 0 <= file < 8 implies a.raw[rank][file] == b.raw[rank][file] by {
            assert(a@[rank][file] == b@[rank][file]);
        }
        assert(a.raw[rank] =~= b.raw[rank]);
    }
    assert(a.raw =~= b.raw);
}

/// The digit for a run of empty squares, as text.
fn run_str(run: usize) -> (t: &'static str)
    requires
        1 <= run <= 8,
    ensures
        t@ == run_text(run as int),
{
    proof {
        reveal_strlit("1");
        reveal_strlit("2");
        reveal_strlit("3");
        reveal_strlit("4");
        reveal_strlit("5");
        reveal_strlit("6");
        reveal_strlit("7");
        reveal_strlit("8");
    }
    let t = match run {
        1 => "1",
        2 => "2",
        3 => "3",
        4 => "4",
        5 => "5",
        6 => "6",
        7 => "7",
        _ => "8",
    };
    assert(t@ =~= run_text(run as int));
    t
}

/// The letter of a piece, as text.
fn piece_str(piece: Piece) -> (t: &'static str)
    ensures
        t@ == seq![char_of_piece(piece)],
{
    proof {
        reveal_strlit("P");
        reveal_strlit("N");
        reveal_strlit("B");
        reveal_strlit("R");
        reveal_strlit("Q");
        reveal_strlit("K");
        reveal_strlit("p");
        reveal_strlit("n");
        reveal_strlit("b");
        reveal_strlit("r");
        reveal_strlit("q");
        reveal_strlit("k");
    }
    let t = match (piece.color, piece.kind) {
        (Color::White, PieceKind::Pawn) => "P",
        (Color::White, PieceKind::Knight) => "N",
        (Color::White, PieceKind::Bishop) => "B",
        (Color::White, PieceKind::Rook) => "R",
        (Color::White, PieceKind::Queen) => "Q",
        (Color::White, PieceKind::King) => "K",
        (Color::Black, PieceKind::Pawn) => "p",
        (Color::Black, PieceKind::Knight) => "n",
        (Color::Black, PieceKind::Bishop) => "b",
        (Color::Black, PieceKind::Rook) => "r",
        (Color::Black, PieceKind::Queen) => "q",
        (Color::Black, PieceKind::King) => "k",
    };
    assert(t@ =~= seq![char_of_piece(piece)]);
    t
}

} // verus!
