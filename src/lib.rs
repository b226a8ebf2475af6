//! A grid chase game: a monster moves on a small board toward a target,
//! scoring on each capture and ending the game on a miss.

pub mod board;
pub mod chance;
pub mod game;

pub use board::{Coordinate, Direction, Element, COL, ROW};
pub use game::{Game, GameError, Outcome};
