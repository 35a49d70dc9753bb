//! Squares of the board, named by a file letter and a rank digit.

use vstd::prelude::*;
use vstd::string::StrSliceExecFns;
use crate::error::ErrorKind;

verus! {

/// A coordinate pair: file 0 is the `a` file, rank 0 is the first rank.
///
/// A square is not bound to the board: reading one from text checks nothing,
/// and the coordinates are tested where a cell of the board is needed.
#[derive(Debug, Clone, Copy, PartialEq, Eq, Structural)]
pub struct Square {
    pub file: i32,
    pub rank: i32,
}

/// The square that a file character and a rank character name: the file is
/// the distance from `a`, the rank the distance from `1`.
pub open spec fn square_of_chars(file: char, rank: char) -> Square {
    Square { file: (file as int - 'a' as int) as i32, rank: (rank as int - '1' as int) as i32 }
}

/// What reading a square from `s` gives: the square that its first two
/// characters name, whatever follows them.
pub open spec fn square_of(s: Seq<char>) -> Result<Square, ErrorKind> {
    if s.len() < 2 {
        Err(ErrorKind::MissingField)
    } else {
        Ok(square_of_chars(s[0], s[1]))
    }
}

impl Square {
    /// Whether the square lies on the board.
    pub open spec fn on_board(self) -> bool {
        0 <= self.file < 8 && 0 <= self.rank < 8
    }

    /// The square named by a file character and a rank character.
    pub fn from_chars(file: char, rank: char) -> (sq: Square)
        ensures
            sq == square_of_chars(file, rank),
            sq.file == file as int - 'a' as int,
            sq.rank == rank as int - '1' as int,
    {
        Square { file: file as u32 as i32 - 'a' as u32 as i32, rank: rank as u32 as i32 - '1' as u32 as i32 }
    }

    /// Reads a square from the first two characters of `s`.
    pub fn from_str(s: &str) -> (r: Result<Square, ErrorKind>)
        ensures
            r == square_of(s@),
    {
        if s.unicode_len() < 2 {
            Err(ErrorKind::MissingField)
        } else {
            Ok(Square::from_chars(s.get_char(0), s.get_char(1)))
        }
    }

    /// Whether the square lies on the board.
    pub fn is_on_board(&self) -> (r: bool)
        ensures
            r == self.on_board(),
    {
        0 <= self.file && self.file < 8 && 0 <= self.rank && self.rank < 8
    }
}

} // verus!
