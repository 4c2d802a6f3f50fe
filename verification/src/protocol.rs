//! The messages exchanged with the game server, and the game state they carry.

use vstd::prelude::*;
use crate::entity::Entity;
use crate::components::card::{Suit, Rank};

pub use crate::components::stack::StackType;

verus! {

/// The identifier the server gives a player.
pub type PlayerId = u32;

/// A message from this client to the server.
#[derive(Debug, Clone)]
pub enum ClientMessage {
    JoinGame { player_name: String },
    MakeMove { moved_entity: Entity, target_stack: StackType },
    RequestGameState,
    ProvideInitialState { initial_state: GameStateData },
    Ping,
}

/// A message from the server to this client.
#[derive(Debug, Clone)]
pub enum ServerMessage {
    GameJoined { your_player_id: PlayerId, initial_game_state: GameStateData },
    GameStateUpdate { current_game_state: GameStateData },
    MoveRejected { entity_id: Entity, reason: String },
    PlayerJoined { player_id: PlayerId, player_name: String },
    PlayerLeft { player_id: PlayerId },
    Pong,
    Error { message: String },
}

/// The shared state of a game: its players and its cards.
#[derive(Debug, Clone)]
pub struct GameStateData {
    pub players: Vec<PlayerData>,
    pub cards: Vec<CardData>,
}

/// A player as the server knows it.
#[derive(Debug, Clone)]
pub struct PlayerData {
    pub id: PlayerId,
    pub name: String,
}

/// Everything about one card: its entity, face, pile and place, and where it is drawn.
#[derive(Clone, Copy, Debug, PartialEq, Eq, Structural)]
pub struct CardData {
    pub entity: Entity,
    pub suit: Suit,
    pub rank: Rank,
    pub is_face_up: bool,
    pub stack_type: StackType,
    pub position_in_stack: u8,
    pub position: PositionData,
}

/// Where a card is drawn, in pixels.
#[derive(Clone, Copy, Debug, PartialEq, Eq, Structural)]
pub struct PositionData {
    pub x: i32,
    pub y: i32,
}

} // verus!
