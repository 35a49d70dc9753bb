//! Colors, piece kinds and pieces, and the letters that stand for them.

use vstd::prelude::*;
use vstd::string::StrSliceExecFns;
use crate::error::ErrorKind;

verus! {

/// The side a piece belongs to, or the side to move.
#[derive(Debug, Clone, Copy, PartialEq, Eq, Structural)]
pub enum Color {
    White,
    Black,
}

/// What a piece is, whichever side it belongs to.
#[derive(Debug, Clone, Copy, PartialEq, Eq, Structural)]
pub enum PieceKind {
    Pawn,
    Knight,
    Bishop,
    Rook,
    Queen,
    King,
}

/// A piece on the board.
#[derive(Debug, Clone, Copy, PartialEq, Eq, Structural)]
pub struct Piece {
    pub color: Color,
    pub kind: PieceKind,
}

/// The color that a letter names: `w` or `b`, in either case.
pub open spec fn color_of_char(c: char) -> Option<Color> {
    if c == 'w' || c == 'W' {
        Some(Color::White)
    } else if c == 'b' || c == 'B' {
        Some(Color::Black)
    } else {
        None
    }
}

/// The piece kind that a letter names, in either case.
pub open spec fn kind_of_char(c: char) -> Option<PieceKind> {
    if c == 'p' || c == 'P' {
        Some(PieceKind::Pawn)
    } else if c == 'n' || c == 'N' {
        Some(PieceKind::Knight)
    } else if c == 'b' || c == 'B' {
        Some(PieceKind::Bishop)
    } else if c == 'r' || c == 'R' {
        Some(PieceKind::Rook)
    } else if c == 'q' || c == 'Q' {
        Some(PieceKind::Queen)
    } else if c == 'k' || c == 'K' {
        Some(PieceKind::King)
    } else {
        None
    }
}

/// Whether `c` is one of the capital letters `A` to `Z`.
pub open spec fn is_upper(c: char) -> bool {
    'A' <= c && c <= 'Z'
}

/// The piece that a letter names in a piece placement: the letter gives the
/// kind, and its case the color, capitals being White.
pub open spec fn piece_of_char(c: char) -> Option<Piece> {
    match kind_of_char(c) {
        Some(kind) => Some(
            Piece { color: if is_upper(c) { Color::White } else { Color::Black }, kind },
        ),
        None => None,
    }
}

/// The small letter of a piece kind.
pub open spec fn char_of_kind(kind: PieceKind) -> char {
    match kind {
        PieceKind::Pawn => 'p',
        PieceKind::Knight => 'n',
        PieceKind::Bishop => 'b',
        PieceKind::Rook => 'r',
        PieceKind::Queen => 'q',
        PieceKind::King => 'k',
    }
}

/// The letter that names a piece in a piece placement.
pub open spec fn char_of_piece(p: Piece) -> char {
    match (p.color, p.kind) {
        (Color::White, PieceKind::Pawn) => 'P',
        (Color::White, PieceKind::Knight) => 'N',
        (Color::White, PieceKind::Bishop) => 'B',
        (Color::White, PieceKind::Rook) => 'R',
        (Color::White, PieceKind::Queen) => 'Q',
        (Color::White, PieceKind::King) => 'K',
        (Color::Black, kind) => char_of_kind(kind),
    }
}

/// What a reader of one letter returns: the value the letter names, or the
/// malformed-character error where it names none.
pub open spec fn named_or_malformed<T>(named: Option<T>) -> Result<T, ErrorKind> {
    match named {
        Some(v) => Ok(v),
        None => Err(ErrorKind::MalformedCharacter),
    }
}

/// What reading a color from `s` gives: what its first letter names.
pub open spec fn color_of(s: Seq<char>) -> Result<Color, ErrorKind> {
    if s.len() == 0 {
        Err(ErrorKind::MissingField)
    } else {
        named_or_malformed(color_of_char(s[0]))
    }
}

/// What reading a piece kind from `s` gives: what its first letter names.
pub open spec fn kind_of(s: Seq<char>) -> Result<PieceKind, ErrorKind> {
    if s.len() == 0 {
        Err(ErrorKind::MissingField)
    } else {
        named_or_malformed(kind_of_char(s[0]))
    }
}

/// What reading a piece from `s` gives: what its first letter names.
pub open spec fn piece_of(s: Seq<char>) -> Result<Piece, ErrorKind> {
    if s.len() == 0 {
        Err(ErrorKind::MissingField)
    } else {
        named_or_malformed(piece_of_char(s[0]))
    }
}

impl Color {
    /// The other side.
    pub open spec fn flipped(self) -> Color {
        match self {
            Color::White => Color::Black,
            Color::Black => Color::White,
        }
    }

    /// Reads a color from its letter.
    pub fn from_char(c: char) -> (r: Result<Color, ErrorKind>)
        ensures
            r == named_or_malformed(color_of_char(c)),
            r is Ok <==> c == 'w' || c == 'W' || c == 'b' || c == 'B',
    {
        match c {
            'w' | 'W' => Ok(Color::White),
            'b' | 'B' => Ok(Color::Black),
            _ => Err(ErrorKind::MalformedCharacter),
        }
    }

    /// Reads a color from the first letter of `s`; what follows it is not
    /// looked at.
    pub fn from_str(s: &str) -> (r: Result<Color, ErrorKind>)
        ensures
            r == color_of(s@),
    {
        if s.is_empty() {
            Err(ErrorKind::MissingField)
        } else {
            Color::from_char(s.get_char(0))
        }
    }

    /// The other side.
    pub fn opposite(self) -> (r: Color)
        ensures
            r == self.flipped(),
    {
        match self {
            Color::White => Color::Black,
            Color::Black => Color::White,
        }
    }
}

impl PieceKind {
    /// Reads a piece kind from its letter, in either case.
    pub fn from_char(c: char) -> (r: Result<PieceKind, ErrorKind>)
        ensures
            r == named_or_malformed(kind_of_char(c)),
            r is Ok <==> c == 'p' || c == 'n' || c == 'b' || c == 'r' || c == 'q' || c == 'k'
                || c == 'P' || c == 'N' || c == 'B' || c == 'R' || c == 'Q' || c == 'K',
    {
        match c {
            'p' | 'P' => Ok(PieceKind::Pawn),
            'n' | 'N' => Ok(PieceKind::Knight),
            'b' | 'B' => Ok(PieceKind::Bishop),
            'r' | 'R' => Ok(PieceKind::Rook),
            'q' | 'Q' => Ok(PieceKind::Queen),
            'k' | 'K' => Ok(PieceKind::King),
            _ => Err(ErrorKind::MalformedCharacter),
        }
    }

    /// Reads a piece kind from the first letter of `s`; what follows it is
    /// not looked at.
    pub fn from_str(s: &str) -> (r: Result<PieceKind, ErrorKind>)
        ensures
            r == kind_of(s@),
    {
        if s.is_empty() {
            Err(ErrorKind::MissingField)
        } else {
            PieceKind::from_char(s.get_char(0))
        }
    }
}

impl Piece {
    /// Reads a piece from its letter in a piece placement.
    pub fn from_char(c: char) -> (r: Result<Piece, ErrorKind>)
        ensures
            r == named_or_malformed(piece_of_char(c)),
            r is Ok <==> kind_of_char(c) is Some,
            r matches Ok(p) ==> kind_of_char(c) == Some(p.kind) && (p.color == Color::White
                <==> is_upper(c)),
    {
        match c {
            'p' => Ok(Piece { color: Color::Black, kind: PieceKind::Pawn }),
            'n' => Ok(Piece { color: Color::Black, kind: PieceKind::Knight }),
            'b' => Ok(Piece { color: Color::Black, kind: PieceKind::Bishop }),
            'r' => Ok(Piece { color: Color::Black, kind: PieceKind::Rook }),
            'q' => Ok(Piece { color: Color::Black, kind: PieceKind::Queen }),
            'k' => Ok(Piece { color: Color::Black, kind: PieceKind::King }),
            'P' => Ok(Piece { color: Color::White, kind: PieceKind::Pawn }),
            'N' => Ok(Piece { color: Color::White, kind: PieceKind::Knight }),
            'B' => Ok(Piece { color: Color::White, kind: PieceKind::Bishop }),
            'R' => Ok(Piece { color: Color::White, kind: PieceKind::Rook }),
            'Q' => Ok(Piece { color: Color::White, kind: PieceKind::Queen }),
            'K' => Ok(Piece { color: Color::White, kind: PieceKind::King }),
            _ => Err(ErrorKind::MalformedCharacter),
        }
    }

    /// Reads a piece from the first letter of `s`; what follows it is not
    /// looked at.
    pub fn from_str(s: &str) -> (r: Result<Piece, ErrorKind>)
        ensures
            r == piece_of(s@),
    {
        if s.is_empty() {
            Err(ErrorKind::MissingField)
        } else {
            Piece::from_char(s.get_char(0))
        }
    }

    /// The letter that names this piece in a piece placement.
    pub fn to_char(self) -> (c: char)
        ensures
            c == char_of_piece(self),
    {
        match (self.color, self.kind) {
            (Color::White, PieceKind::Pawn) => 'P',
            (Color::White, PieceKind::Knight) => 'N',
            (Color::White, PieceKind::Bishop) => 'B',
            (Color::White, PieceKind::Rook) => 'R',
            (Color::White, PieceKind::Queen) => 'Q',
            (Color::White, PieceKind::King) => 'K',
            (Color::Black, PieceKind::Pawn) => 'p',
            (Color::Black, PieceKind::Knight) => 'n',
            (Color::Black, PieceKind::Bishop) => 'b',
            (Color::Black, PieceKind::Rook) => 'r',
            (Color::Black, PieceKind::Queen) => 'q',
            (Color::Black, PieceKind::King) => 'k',
        }
    }
}

/// A piece's letter reads back as that piece, and a letter that names a piece
/// is that piece's letter: reading and writing a piece undo each other.
pub proof fn lemma_piece_letter_round_trip(p: Piece, c: char)
    ensures
        piece_of_char(char_of_piece(p)) == Some(p),
        piece_of_char(c) == Some(p) ==> char_of_piece(p) == c,
{
}

} // verus!
