//! The size of the board to play on.

use vstd::prelude::*;
use crate::board::{HEIGHT, WIDTH};

verus! {

/// The size of the board to play on.
#[derive(Debug, Clone, Copy, PartialEq, Eq)]
pub struct Config {
    /// Number of columns.
    pub width: u32,
    /// Number of rows.
    pub height: u32,
}

impl Default for Config {
    /// The customary board: ten columns by twenty rows.
    fn default() -> (config: Self)
        ensures
            config.width == WIDTH,
            config.height == HEIGHT,
    {
        Self { width: WIDTH, height: HEIGHT }
    }
}

} // verus!
