//! The rules of the game, stated over entities of the world.

pub mod common;
pub mod foundation;
pub mod tableau;
pub mod stock_waste;
pub mod win_condition;
pub mod move_validation;

pub use common::{CardColor, get_foundation_suit, get_top_card_entity};
pub use foundation::can_move_to_foundation;
pub use stock_waste::{
    can_deal_from_stock, can_reset_stock_from_waste, can_move_from_waste_to_tableau,
    can_move_from_waste_to_foundation,
};
pub use move_validation::is_move_valid;
pub use tableau::can_move_to_tableau;
pub use win_condition::check_win_condition;
