//! The component types of the solitaire game.

pub mod card;
pub mod position;
pub mod player;
pub mod game_state;
pub mod stack;
pub mod dragging_info;

pub use card::{Card, Rank, Suit};
pub use game_state::{GameState, GameStatus};
pub use player::Player;
pub use position::Position;
pub use stack::{StackInfo, StackType};
pub use dragging_info::DraggingInfo;
