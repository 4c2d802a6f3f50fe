//! Finding a foundation that a card can move to by itself.

use vstd::prelude::*;
use crate::components::card::{Card, Suit, suit_of_index};
use crate::components::stack::StackType;
use crate::ecs::world::{World, WorldView, component_of};
use crate::rules::{can_move_to_foundation, foundation_accepts};
use crate::logic::rules::common::{find_top_in, top_of};

pub use crate::logic::rules::common::get_foundation_suit;

verus! {

/// The card on top of foundation `index` (only entities holding a card count), if any.
pub open spec fn foundation_top_card(w: WorldView, index: u8) -> Option<Card> {
    match top_of(w, StackType::Foundation(index), true) {
        Some(t) => component_of::<Card>(w, t),
        None => None,
    }
}

/// Foundation `index` (0 to 3) takes `card`.
pub open spec fn foundation_takes(w: WorldView, card: Card, index: u8) -> bool {
    foundation_accepts(card, foundation_top_card(w, index), suit_of_index(index as int))
}

/// The card on top of foundation `foundation_index`, among the entities holding a card.
pub fn get_foundation_top_card(world: &World, foundation_index: u8) -> (r: Option<&Card>)
    requires
        world.wf(),
    ensures
        match r {
            Some(c) => foundation_top_card(world@, foundation_index) == Some(*c),
            None => foundation_top_card(world@, foundation_index) is None,
        },
{
    let entities_with_card = world.get_all_entities_with_component::<Card>();
    let top = find_top_in(world, &entities_with_card, StackType::Foundation(foundation_index), true);
    match top {
        Some(e) => world.get_component::<Card>(e),
        None => None,
    }
}

/// The first foundation (in order 0 to 3) that takes `card_to_move`, if any.
pub fn find_automatic_foundation_move(card_to_move: &Card, world: &World) -> (r: Option<StackType>)
    requires
        world.wf(),
    ensures
        match r {
            Some(st) => exists|i: u8| #![trigger foundation_takes(world@, *card_to_move, i)] i < 4 && st == StackType::Foundation(i)
                && foundation_takes(world@, *card_to_move, i)
                && forall|j: u8| j < i ==> !foundation_takes(world@, *card_to_move, j),
            None => forall|i: u8| i < 4 ==> !foundation_takes(world@, *card_to_move, i),
        },
{
    let mut i: u8 = 0;
    while i < 4
        invariant
            i <= 4,
            world.wf(),
            forall|j: u8| j < i ==> !foundation_takes(world@, *card_to_move, j),
        decreases 4 - i,
    {
        let foundation_suit = get_foundation_suit(i);
        if foundation_suit.is_none() {
            i = i + 1;
            continue;
        }
        let foundation_suit = foundation_suit.unwrap();
        let top_card = get_foundation_top_card(world, i);
        assert(crate::rules::card_opt(top_card) == foundation_top_card(world@, i));
        if can_move_to_foundation(card_to_move, top_card, foundation_suit) {
            assert(foundation_takes(world@, *card_to_move, i));
            return Some(StackType::Foundation(i));
        }
        i = i + 1;
    }
    None
}

} // verus!
