//! The state of the game as a whole.

use vstd::prelude::*;

verus! {

/// Whether the game is running, over (possibly with a winner), or won.
#[derive(Debug, Clone, Copy, PartialEq, Eq, Structural)]
pub enum GameStatus {
    Playing,
    GameOver { winner_id: Option<u32> },
    Won,
}

/// The game-state component, held by one entity of the world.
#[derive(Debug, Clone, Copy, PartialEq, Eq, Structural)]
pub struct GameState {
    pub status: GameStatus,
}

} // verus!
