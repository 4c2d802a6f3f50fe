//! Whether a move of a card to a pile is allowed.

use vstd::prelude::*;
use crate::components::stack::StackType;
use crate::components::card::Card;
use crate::entity::Entity;
use crate::ecs::world::{World, WorldView, component_of};
use super::tableau::{can_move_to_tableau, tableau_move_ok};
use super::foundation::{can_move_to_foundation, foundation_move_ok};

verus! {

/// A card may move to tableau and foundation piles by their rules; never to the stock,
/// the waste or the hand; and an entity without a card never moves.
pub open spec fn move_ok(w: WorldView, moved: usize, target: StackType) -> bool {
    &&& component_of::<Card>(w, moved) is Some
    &&& match target {
        StackType::Tableau(i) => tableau_move_ok(w, moved, i),
        StackType::Foundation(i) => foundation_move_ok(w, moved, i),
        _ => false,
    }
}

/// Whether moving `moved_entity` to `target_stack` is allowed.
pub fn is_move_valid(world: &World, moved_entity: Entity, target_stack: StackType) -> (b: bool)
    requires
        world.wf(),
    ensures
        b == move_ok(world@, moved_entity.0, target_stack),
{
    if world.get_component::<Card>(moved_entity).is_none() {
        return false;
    }
    match target_stack {
        StackType::Tableau(target_index) => can_move_to_tableau(world, moved_entity, target_index),
        StackType::Foundation(target_index) => can_move_to_foundation(world, moved_entity, target_index),
        StackType::Stock | StackType::Waste | StackType::Hand => false,
    }
}

} // verus!
