//! A player of the game.

use vstd::prelude::*;

verus! {

/// A player: a display name and whether it is this player's turn.
#[derive(Debug, Clone, PartialEq)]
pub struct Player {
    pub name: String,
    pub is_current_turn: bool,
}

} // verus!
