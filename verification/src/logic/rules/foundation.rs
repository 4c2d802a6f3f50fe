//! Moving a card of the world onto a foundation.

use vstd::prelude::*;
use crate::components::card::{Card, Rank, suit_of_index};
use crate::components::stack::StackType;
use crate::entity::Entity;
use crate::ecs::world::{World, WorldView, component_of};
use crate::rules::foundation_accepts;
use super::common::{get_foundation_suit, get_top_card_entity, top_of};

verus! {

/// The card of entity `card` may go onto foundation `index`: it holds a card, the index
/// names a foundation (0 to 3), and the foundation rule holds against the foundation's
/// top entity, which must hold a card itself.
pub open spec fn foundation_move_ok(w: WorldView, card: usize, index: u8) -> bool {
    match component_of::<Card>(w, card) {
        None => false,
        Some(c) => index < 4 && match top_of(w, StackType::Foundation(index), false) {
            None => foundation_accepts(c, None, suit_of_index(index as int)),
            Some(t) => match component_of::<Card>(w, t) {
                None => false,
                Some(tc) => foundation_accepts(c, Some(tc), suit_of_index(index as int)),
            },
        },
    }
}

/// Whether the card of `card_to_move_entity` may go onto foundation `target_foundation_index`.
pub fn can_move_to_foundation(world: &World, card_to_move_entity: Entity, target_foundation_index: u8) -> (b: bool)
    requires
        world.wf(),
    ensures
        b == foundation_move_ok(world@, card_to_move_entity.0, target_foundation_index),
{
    let card_to_move = match world.get_component::<Card>(card_to_move_entity) {
        Some(card) => card,
        None => {
            return false;
        },
    };
    let target_suit = match get_foundation_suit(target_foundation_index) {
        Some(suit) => suit,
        None => {
            return false;
        },
    };
    if card_to_move.suit != target_suit {
        return false;
    }
    let target_stack_type = StackType::Foundation(target_foundation_index);
    match get_top_card_entity(world, target_stack_type) {
        None => card_to_move.rank == Rank::Ace,
        Some(target_top_card_entity) => {
            let target_top_card = match world.get_component::<Card>(target_top_card_entity) {
                Some(card) => card,
                None => {
                    return false;
                },
            };
            (card_to_move.rank.value() as usize) == (target_top_card.rank.value() as usize) + 1
        },
    }
}

} // verus!
