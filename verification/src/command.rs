//! The commands of a player and what the player hears of them.

use vstd::prelude::*;

verus! {

/// What a player can ask of a game between two ticks.
#[derive(Debug, Clone, Copy, PartialEq, Eq, Structural)]
pub enum Command {
    MoveLeft,
    MoveRight,
    MoveDown,
    RotateLeft,
    RotateRight,
    DropBlock,
    SwapHeld,
}

/// What the player gets to hear of a command.
#[derive(Debug, Clone, Copy, PartialEq, Eq, Structural)]
pub enum Feedback {
    /// Nothing to report.
    Silent,
    /// The piece has turned.
    Turned,
    /// The move or the turn did not fit and was not made.
    Refused,
}

} // verus!
