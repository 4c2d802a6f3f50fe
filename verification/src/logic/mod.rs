//! Game logic: rules, the deck, piles in order, and automatic moves.

pub mod rules;
pub mod deck;
pub mod piles;
pub mod auto_move;
