//! Moves in coordinate notation: a start square, an end square, and the
//! letter of the piece that a pawn is promoted to, if any.

use vstd::prelude::*;
use crate::error::ErrorKind;
use crate::piece::{kind_of_char, PieceKind};
use crate::square::{square_of_chars, Square};
use crate::text::chars_of;

verus! {

/// A move from one square to another. `end_piece` is the kind that the
/// moved piece takes on at its end square, where the notation names one.
#[derive(Debug, Clone, Copy, PartialEq, Eq)]
pub struct Move {
    pub start: Square,
    pub end: Square,
    pub end_piece: Option<PieceKind>,
}

/// What reading a move from `s` gives. The first four characters name the
/// start and the end square. A fifth names the promotion piece, and what
/// follows it is not looked at.
pub open spec fn move_of(s: Seq<char>) -> Result<Move, ErrorKind> {
    if s.len() < 4 {
        Err(ErrorKind::MissingField)
    } else {
        let start = square_of_chars(s[0], s[1]);
        let end = square_of_chars(s[2], s[3]);
        if s.len() == 4 {
            Ok(Move { start, end, end_piece: None })
        } else {
            match kind_of_char(s[4]) {
                Some(kind) => Ok(Move { start, end, end_piece: Some(kind) }),
                None => Err(ErrorKind::MalformedCharacter),
            }
        }
    }
}

impl Move {
    /// Reads a move from coordinate notation, such as `e2e4` or `e7e8q`.
    /// The squares are not held to the board.
    pub fn from_uci(s: &str) -> (r: Result<Move, ErrorKind>)
        ensures
            r == move_of(s@),
    {
        let cs = chars_of(s);
        if cs.len() < 4 {
            return Err(ErrorKind::MissingField);
        }
        let start = Square::from_chars(cs[0], cs[1]);
        let end = Square::from_chars(cs[2], cs[3]);
        if cs.len() == 4 {
            Ok(Move { start, end, end_piece: None })
        } else {
            match PieceKind::from_char(cs[4]) {
                Ok(kind) => Ok(Move { start, end, end_piece: Some(kind) }),
                Err(e) => Err(e),
            }
        }
    }
}

} // verus!
