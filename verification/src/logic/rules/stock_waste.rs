//! Rules of the stock and the waste.

use vstd::prelude::*;
use crate::entity::Entity;
use crate::ecs::world::World;
use super::tableau::{can_move_to_tableau, tableau_move_ok};
use super::foundation::{can_move_to_foundation, foundation_move_ok};

verus! {

/// A card can be dealt from the stock unless the stock is empty.
pub fn can_deal_from_stock(stock_is_empty: bool) -> (b: bool)
    ensures
        b == !stock_is_empty,
{
    !stock_is_empty
}

/// The waste can be turned back into the stock when the stock is empty and the waste is not.
pub fn can_reset_stock_from_waste(stock_is_empty: bool, waste_is_empty: bool) -> (b: bool)
    ensures
        b == (stock_is_empty && !waste_is_empty),
{
    stock_is_empty && !waste_is_empty
}

/// A waste card moves to a tableau pile by the tableau rule.
pub fn can_move_from_waste_to_tableau(world: &World, waste_top_card_entity: Entity, target_tableau_index: u8) -> (b: bool)
    requires
        world.wf(),
    ensures
        b == tableau_move_ok(world@, waste_top_card_entity.0, target_tableau_index),
{
    can_move_to_tableau(world, waste_top_card_entity, target_tableau_index)
}

/// A waste card moves to a foundation by the foundation rule.
pub fn can_move_from_waste_to_foundation(
    world: &World,
    waste_top_card_entity: Entity,
    target_foundation_index: u8,
) -> (b: bool)
    requires
        world.wf(),
    ensures
        b == foundation_move_ok(world@, waste_top_card_entity.0, target_foundation_index),
{
    can_move_to_foundation(world, waste_top_card_entity, target_foundation_index)
}

} // verus!
