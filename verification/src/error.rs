//! The ways in which reading a position or applying a move can fail.

use vstd::prelude::*;

verus! {

/// Why an input was rejected. Every failure is final: no function of this
/// library changes anything before it reports one.
#[derive(Debug, Clone, Copy, PartialEq, Eq, Structural)]
pub enum ErrorKind {
    /// A character stands where a color, a piece letter or a castling flag
    /// was expected, and is none.
    MalformedCharacter,
    /// A record has fewer fields than it needs, or a field or a move token
    /// has fewer characters than it needs.
    MissingField,
    /// A move starts from a square that holds no piece.
    MissingPiece,
    /// A move counter is not a decimal integer that fits the counter's type.
    UnparsableInteger,
    /// A coordinate lies off the board where a cell of the board is needed.
    OutOfRange,
}

} // verus!
