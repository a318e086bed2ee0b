//! A falling-piece puzzle engine: the board, the seven pieces, and the game
//! that moves, turns, drops, holds and locks them, clears full rows and keeps
//! the score. The engine draws nothing and reads no device: a front end sends
//! it commands, calls `tick` once a frame and paints what the game shows.
//!
//! The functions are verified against contracts over a plain model of the
//! game: `Grid` for the board, `Piece` for a piece with its place, `Game` for
//! the whole. One contract is taken on trust: that of the call into `rand`
//! behind `ThreadRandomizer`.

pub mod board;
pub mod brick;
pub mod cell;
pub mod color;
pub mod command;
pub mod config;
pub mod game;
pub mod player;
pub mod prelude;
pub mod randomizer;
pub mod score;
pub mod tetris;
pub mod traits;
