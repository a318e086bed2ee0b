//! The content of one place of a grid.

use vstd::prelude::*;
use crate::color::Color;

verus! {

/// What a grid position holds when it is not empty: a coloured block, or the
/// marker of the landing preview. An empty position is `None` of `Option<Cell>`.
#[derive(Debug, Clone, Copy, PartialEq, Eq, Structural)]
pub enum Cell {
    Normal(Color),
    GhostMarker,
}

} // verus!
