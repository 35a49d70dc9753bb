//! Chess position tracking: a position is read from Forsyth-Edwards Notation,
//! moves are read from UCI coordinate notation, and each move is applied to
//! the position under a fixed set of bookkeeping rules. Moves are not checked
//! for legality.
//!
//! Every function is verified against a contract stated over the character
//! sequence of its input.

pub mod board;
pub mod castling;
pub mod error;
pub mod moves;
pub mod piece;
pub mod placement;
pub mod square;
pub mod state;
pub mod text;

pub use board::Board;
pub use castling::CastlingRights;
pub use error::ErrorKind;
pub use moves::Move;
pub use piece::{Color, Piece, PieceKind};
pub use square::Square;
pub use state::GameState;
