//! The colour of a cell.

use vstd::prelude::*;

verus! {

/// An opaque RGB colour, carried by occupied cells and never interpreted by the engine.
#[derive(Debug, Clone, Copy, PartialEq, Eq, Structural)]
pub struct Color(pub u8, pub u8, pub u8);

} // verus!
