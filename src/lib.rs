//! Rules engine of a falling-block puzzle game: piece geometry, the falling
//! piece, and the playfield with its collision, landing, line-clear and
//! scoring rules.

pub mod board;
pub mod lemmas;
pub mod shape;
pub mod tetrimino;

pub use board::{Board, Move};
pub use shape::Shape;
pub use tetrimino::Tetrimino;
