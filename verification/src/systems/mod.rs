//! The systems of the game.

pub mod deal_system;
pub mod move_card_system;
pub mod win_condition_system;
