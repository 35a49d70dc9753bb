//! The state of a game: the position read from a record, and what a move
//! does to it.

use vstd::prelude::*;
use vstd::string::StrSliceExecFns;
use crate::board::Board;
use crate::castling::{rights_of, CastlingRights};
use crate::error::ErrorKind;
use crate::moves::Move;
use crate::piece::{color_of, Color, Piece, PieceKind};
use crate::placement::{placement_of, put, Grid};
use crate::square::{square_of, Square};
use crate::text::{counter_of, fields, leading_fields, parse_counter};

verus! {

/// A game state as contracts see it.
pub struct Position {
    pub grid: Grid,
    pub turn: Color,
    pub castling_rights: CastlingRights,
    pub en_passant: Option<Square>,
    pub moves: Seq<Move>,
    pub halfmove: int,
    pub fullmove: int,
}

/// What the en-passant field of a record says: no square where it is a lone
/// `-`, else the square that its first two characters name.
pub open spec fn en_passant_of(s: Seq<char>) -> Result<Option<Square>, ErrorKind> {
    if s == seq!['-'] {
        Ok(None)
    } else {
        match square_of(s) {
            Ok(sq) => Ok(Some(sq)),
            Err(e) => Err(e),
        }
    }
}

/// The position that a record describes. Its first six fields are the
/// piece placement, the side to move, the castling rights, the en-passant
/// square and the two move counters; further fields are not looked at. A
/// record with fewer fields is rejected before any field is read; after
/// that the first field that fails, in this order, gives the error.
pub open spec fn position_of(s: Seq<char>) -> Result<Position, ErrorKind> {
    let f = fields(s);
    if f.len() < 6 {
        Err(ErrorKind::MissingField)
    } else {
        match (
            placement_of(f[0]),
            color_of(f[1]),
            rights_of(f[2]),
            en_passant_of(f[3]),
            counter_of(f[4]),
            counter_of(f[5]),
        ) {
            (Err(e), _, _, _, _, _) => Err(e),
            (_, Err(e), _, _, _, _) => Err(e),
            (_, _, Err(e), _, _, _) => Err(e),
            (_, _, _, Err(e), _, _) => Err(e),
            (_, _, _, _, Err(e), _) => Err(e),
            (_, _, _, _, _, Err(e)) => Err(e),
            (Ok(grid), Ok(turn), Ok(castling_rights), Ok(en_passant), Ok(halfmove), Ok(fullmove)) => Ok(
                Position {
                    grid,
                    turn,
                    castling_rights,
                    en_passant,
                    moves: Seq::empty(),
                    halfmove: halfmove as int,
                    fullmove: fullmove as int,
                },
            ),
        }
    }
}

/// The piece that arrives at the end square of a move made with `piece`: of
/// the same color, and of the kind the move names, or else of its own kind.
pub open spec fn arriving(piece: Piece, mv: Move) -> Piece {
    Piece {
        color: piece.color,
        kind: match mv.end_piece {
            Some(kind) => kind,
            None => piece.kind,
        },
    }
}

/// What a move does to a position. The piece on the start square goes to
/// the end square, replacing whatever stood there, and the start square is
/// left empty. The turn passes to the other side. The halfmove counter
/// starts again at 0 where a pawn moved and else grows by one; the fullmove
/// counter grows by one. The move is added at the end of the list of
/// moves. Castling rights and the en-passant square stay as they are.
///
/// The move is neither held to the rules of chess nor to the side to move.
/// It fails where a square lies off the board, or the start square is empty.
pub open spec fn moved(p: Position, mv: Move) -> Result<Position, ErrorKind> {
    if !mv.start.on_board() {
        Err(ErrorKind::OutOfRange)
    } else {
        match p.grid[mv.start.rank as int][mv.start.file as int] {
            None => Err(ErrorKind::MissingPiece),
            Some(piece) => if !mv.end.on_board() {
                Err(ErrorKind::OutOfRange)
            } else {
                Ok(
                    Position {
                        grid: put(
                            put(
                                p.grid,
                                mv.end.rank as int,
                                mv.end.file as int,
                                Some(arriving(piece, mv)),
                            ),
                            mv.start.rank as int,
                            mv.start.file as int,
                            None,
                        ),
                        turn: p.turn.flipped(),
                        halfmove: if piece.kind == PieceKind::Pawn {
                            0
                        } else {
                            p.halfmove + 1
                        },
                        fullmove: p.fullmove + 1,
                        moves: p.moves.push(mv),
                        ..p
                    },
                )
            },
        }
    }
}

/// Whether the counters of the position that a move leads to, if it leads
/// to one, fit their 32 bits.
pub open spec fn counters_fit(next: Result<Position, ErrorKind>) -> bool {
    next matches Ok(p) ==> p.halfmove <= i32::MAX && p.fullmove <= i32::MAX
}

/// A game in progress. `moves` is the log of the moves made so far, in the
/// order in which they were made; it is only ever added to, and nothing in
/// this library reads it.
#[derive(Debug, PartialEq, Eq)]
pub struct GameState {
    pub board: Board,
    pub turn: Color,
    pub castling_rights: CastlingRights,
    pub en_passant: Option<Square>,
    pub moves: Vec<Move>,
    pub halfmove: i32,
    pub fullmove: i32,
}

impl View for GameState {
    type V = Position;

    open spec fn view(&self) -> Position {
        Position {
            grid: self.board@,
            turn: self.turn,
            castling_rights: self.castling_rights,
            en_passant: self.en_passant,
            moves: self.moves@,
            halfmove: self.halfmove as int,
            fullmove: self.fullmove as int,
        }
    }
}

impl GameState {
    /// Reads a game state from a position record of six fields parted by
    /// whitespace.
    pub fn from_fen(fen: &str) -> (r: Result<GameState, ErrorKind>)
        ensures
            match position_of(fen@) {
                Ok(p) => r is Ok && r->Ok_0@ == p,
                Err(e) => r == Err::<GameState, ErrorKind>(e),
            },
    {
        let parts = leading_fields(fen, 6);
        if parts.len() < 6 {
            return Err(ErrorKind::MissingField);
        }
        let board = match Board::from_fen_board(parts[0]) {
            Ok(board) => board,
            Err(e) => {
                return Err(e);
            },
        };
        let turn = match Color::from_str(parts[1]) {
            Ok(turn) => turn,
            Err(e) => {
                return Err(e);
            },
        };
        let castling_rights = match CastlingRights::from_str(parts[2]) {
            Ok(rights) => rights,
            Err(e) => {
                return Err(e);
            },
        };
        let en_passant = match read_en_passant(parts[3]) {
            Ok(square) => square,
            Err(e) => {
                return Err(e);
            },
        };
        let halfmove = match parse_counter(parts[4]) {
            Ok(n) => n,
            Err(e) => {
                return Err(e);
            },
        };
        let fullmove = match parse_counter(parts[5]) {
            Ok(n) => n,
            Err(e) => {
                return Err(e);
            },
        };
        Ok(GameState { board, turn, castling_rights, en_passant, moves: Vec::new(), halfmove, fullmove })
    }

    /// Whether the move counters have room for `mv`, so that `make_move` may
    /// be called with it. A move that fails needs no room.
    pub fn has_room_for(&self, mv: &Move) -> (r: bool)
        ensures
            r == counters_fit(moved(self@, *mv)),
    {
        if !mv.start.is_on_board() || !mv.end.is_on_board() {
            return true;
        }
        match self.board.raw[mv.start.rank as usize][mv.start.file as usize] {
            None => true,
            Some(piece) => {
                let halfmove_fits = match piece.kind {
                    PieceKind::Pawn => true,
                    _ => self.halfmove < i32::MAX,
                };
                halfmove_fits && self.fullmove < i32::MAX
            },
        }
    }

    /// Applies a move to the state and adds it to the log of moves. On an
    /// error the state is left as it was.
    pub fn make_move(&mut self, mv: &Move) -> (r: Result<(), ErrorKind>)
        requires
            counters_fit(moved(old(self)@, *mv)),
        ensures
            match moved(old(self)@, *mv) {
                Ok(next) => r is Ok && final(self)@ == next,
                Err(e) => r == Err::<(), ErrorKind>(e) && *final(self) == *old(self),
            },
            r is Ok ==> final(self).moves@ == old(self).moves@.push(*mv),
            r is Ok ==> final(self).turn == old(self).turn.flipped(),
    {
        if !mv.start.is_on_board() {
            return Err(ErrorKind::OutOfRange);
        }
        let piece = match self.board.raw[mv.start.rank as usize][mv.start.file as usize] {
            Some(piece) => piece,
            None => {
                return Err(ErrorKind::MissingPiece);
            },
        };
        if !mv.end.is_on_board() {
            return Err(ErrorKind::OutOfRange);
        }
        let kind = match mv.end_piece {
            Some(kind) => kind,
            None => piece.kind,
        };
        self.board.set(mv.end.rank as usize, mv.end.file as usize, Some(Piece { color: piece.color, kind }));
        self.board.set(mv.start.rank as usize, mv.start.file as usize, None);
        self.turn = self.turn.opposite();
        match piece.kind {
            PieceKind::Pawn => {
                self.halfmove = 0;
            },
            _ => {
                self.halfmove = self.halfmove + 1;
            },
        }
        self.fullmove = self.fullmove + 1;
        self.moves.push(*mv);
        Ok(())
    }
}

/// Reads the en-passant field of a record.
fn read_en_passant(s: &str) -> (r: Result<Option<Square>, ErrorKind>)
    ensures
        r == en_passant_of(s@),
{
    let n = s.unicode_len();
    if n == 1 && s.get_char(0) == '-' {
        assert(s@ =~= seq!['-']);
        Ok(None)
    } else {
        assert(s@ != seq!['-']) by {
            if s@ == seq!['-'] {
                assert(seq!['-'].len() == 1);
                assert(seq!['-'][0] == '-');
            }
        }
        match Square::from_str(s) {
            Ok(square) => Ok(Some(square)),
            Err(e) => Err(e),
        }
    }
}

} // verus!
