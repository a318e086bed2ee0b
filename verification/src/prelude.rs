//! The names that a front end needs.

pub use crate::board::Board;
pub use crate::brick::Brick;
pub use crate::cell::Cell;
pub use crate::color::Color;
pub use crate::command::{Command, Feedback};
pub use crate::player::Player;
pub use crate::tetris::Tetris;
pub use crate::traits::{HasSize, IterateDimensions, Randomizer};
