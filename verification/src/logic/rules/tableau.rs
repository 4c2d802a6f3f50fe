//! Moving a card of the world onto a tableau pile.

use vstd::prelude::*;
use crate::components::card::{Card, Rank};
use crate::components::stack::StackType;
use crate::entity::Entity;
use crate::ecs::world::{World, WorldView, component_of};
use crate::rules::tableau_accepts;
use super::common::{CardColor, get_top_card_entity, top_of};

verus! {

/// The card of entity `card` may go onto tableau pile `index`: it holds a card, and the
/// tableau rule holds against the pile's top entity, which must hold a card itself.
pub open spec fn tableau_move_ok(w: WorldView, card: usize, index: u8) -> bool {
    match component_of::<Card>(w, card) {
        None => false,
        Some(c) => match top_of(w, StackType::Tableau(index), false) {
            None => tableau_accepts(c, None),
            Some(t) => match component_of::<Card>(w, t) {
                None => false,
                Some(tc) => tableau_accepts(c, Some(tc)),
            },
        },
    }
}

/// Whether the card of `card_to_move_entity` may go onto tableau pile `target_tableau_index`.
pub fn can_move_to_tableau(world: &World, card_to_move_entity: Entity, target_tableau_index: u8) -> (b: bool)
    requires
        world.wf(),
    ensures
        b == tableau_move_ok(world@, card_to_move_entity.0, target_tableau_index),
{
    let card_to_move = match world.get_component::<Card>(card_to_move_entity) {
        Some(card) => card,
        None => {
            return false;
        },
    };
    let target_stack_type = StackType::Tableau(target_tableau_index);
    match get_top_card_entity(world, target_stack_type) {
        Some(target_top_card_entity) => {
            let target_top_card = match world.get_component::<Card>(target_top_card_entity) {
                Some(card) => card,
                None => {
                    return false;
                },
            };
            let move_color = CardColor::from_suit(card_to_move.suit);
            let target_color = CardColor::from_suit(target_top_card.suit);
            let colors_different = move_color != target_color;
            let rank_is_one_less = (card_to_move.rank.value() as usize) == (target_top_card.rank.value() as usize).saturating_sub(1);
            if !colors_different || !rank_is_one_less {
                return false;
            }
            true
        },
        None => card_to_move.rank == Rank::King,
    }
}

} // verus!
