//! Where a card is drawn, from the pile it lies in and its place there.

use vstd::prelude::*;
use crate::components::{Card, Position, StackInfo, StackType};
use crate::ecs::world::{World, WorldView, component_of};
use crate::config::layout::{
    TABLEAU_START_X, TABLEAU_START_Y, FOUNDATION_START_X, FOUNDATION_START_Y, STOCK_POS_X,
    STOCK_POS_Y, WASTE_POS_X, WASTE_POS_Y, TABLEAU_Y_OFFSET_FACE_DOWN, TABLEAU_Y_OFFSET_FACE_UP,
    FOUNDATION_X_OFFSET, TABLEAU_X_OFFSET,
};
use crate::logic::piles::{sorted_pile, sorted_pile_of};

verus! {

/// How far a card pushes the next card of a tableau pile down: more when face up.
pub open spec fn card_y_offset(w: WorldView, id: usize) -> int {
    match component_of::<Card>(w, id) {
        Some(c) => if c.is_face_up { TABLEAU_Y_OFFSET_FACE_UP as int } else { TABLEAU_Y_OFFSET_FACE_DOWN as int },
        None => TABLEAU_Y_OFFSET_FACE_DOWN as int,
    }
}

/// The summed offsets of the cards `s`.
pub open spec fn offsets_sum(w: WorldView, s: Seq<usize>) -> int
    decreases s.len(),
{
    if s.len() == 0 {
        0
    } else {
        offsets_sum(w, s.drop_last()) + card_y_offset(w, s.last())
    }
}

/// The height of the card at position `p` of tableau pile `index`: the start of the
/// tableau, pushed down by every card of the pile below that position.
pub open spec fn tableau_card_y(w: WorldView, index: u8, p: u8) -> int {
    let pile = sorted_pile(w, StackType::Tableau(index), true);
    let k = if (p as int) < pile.len() { p as int } else { pile.len() as int };
    TABLEAU_START_Y + offsets_sum(w, pile.take(k))
}

/// Where the card at position `p` of pile `st` is drawn (the hand has no place).
pub open spec fn card_position(w: WorldView, st: StackType, p: u8) -> (int, int) {
    match st {
        StackType::Stock => (STOCK_POS_X as int, STOCK_POS_Y as int),
        StackType::Waste => (WASTE_POS_X as int, WASTE_POS_Y as int),
        StackType::Foundation(i) => (FOUNDATION_START_X + FOUNDATION_X_OFFSET * i, FOUNDATION_START_Y as int),
        StackType::Tableau(i) => (TABLEAU_START_X + TABLEAU_X_OFFSET * i, tableau_card_y(w, i, p)),
        StackType::Hand => (0, 0),
    }
}

proof fn lemma_offsets_bound(w: WorldView, s: Seq<usize>)
    ensures
        0 <= offsets_sum(w, s) <= TABLEAU_Y_OFFSET_FACE_UP * s.len(),
    decreases s.len(),
{
    if s.len() > 0 {
        lemma_offsets_bound(w, s.drop_last());
    }
}

/// A card of a tableau pile lies at most 255 cards down, so its height stays small.
proof fn lemma_tableau_y_bound(w: WorldView, index: u8, p: u8)
    ensures
        TABLEAU_START_Y <= tableau_card_y(w, index, p) <= TABLEAU_START_Y + TABLEAU_Y_OFFSET_FACE_UP * 255,
{
    let pile = sorted_pile(w, StackType::Tableau(index), true);
    let k = if (p as int) < pile.len() { p as int } else { pile.len() as int };
    lemma_offsets_bound(w, pile.take(k));
}

proof fn lemma_offsets_prefix(w: WorldView, s: Seq<usize>, k: int)
    requires
        0 <= k <= s.len(),
    ensures
        0 <= offsets_sum(w, s.take(k)) <= offsets_sum(w, s),
    decreases s.len(),
{
    if s.len() > 0 {
        if k == s.len() {
            assert(s.take(k) =~= s);
            lemma_offsets_prefix(w, s.drop_last(), k - 1);
            assert(s.drop_last().take(k - 1) =~= s.drop_last());
        } else {
            assert(s.take(k) =~= s.drop_last().take(k));
            lemma_offsets_prefix(w, s.drop_last(), k);
        }
    }
}

/// Where the card at position `position_in_stack` of pile `stack_type` is drawn; on a
/// tableau pile, the cards of that pile below it push it down.
pub fn calculate_card_position(stack_type: StackType, position_in_stack: u8, world: &World) -> (r: Position)
    requires
        world.wf(),
        !(stack_type is Hand),
    ensures
        (r.x as int, r.y as int) == card_position(world@, stack_type, position_in_stack),
{
    match stack_type {
        StackType::Stock => Position { x: STOCK_POS_X, y: STOCK_POS_Y },
        StackType::Waste => Position { x: WASTE_POS_X, y: WASTE_POS_Y },
        StackType::Foundation(index) => {
            let base_x = FOUNDATION_START_X + FOUNDATION_X_OFFSET * (index as i32);
            Position { x: base_x, y: FOUNDATION_START_Y }
        },
        StackType::Tableau(index) => {
            let base_x = TABLEAU_START_X + TABLEAU_X_OFFSET * (index as i32);
            let ghost w = world@;
            let ghost pile = sorted_pile(w, stack_type, true);
            let candidates = world.get_all_entities_with_component::<StackInfo>();
            let tableau_cards = sorted_pile_of(world, &candidates, stack_type, true);
            let n = tableau_cards.len();
            proof {
                lemma_tableau_y_bound(w, index, position_in_stack);
            }
            let ghost k: int = if (position_in_stack as int) < n { position_in_stack as int } else { n as int };
            proof {
                lemma_offsets_prefix(w, pile, k);
                assert(pile.take(n as int) =~= pile);
            }
            assert(pile.take(0) =~= Seq::<usize>::empty());
            let mut current_y: i32 = TABLEAU_START_Y;
            let mut calculated_y: i32 = TABLEAU_START_Y;
            let mut i: usize = 0;
            while i < n
                invariant_except_break
                    current_y == TABLEAU_START_Y + offsets_sum(w, pile.take(i as int)),
                    calculated_y == TABLEAU_START_Y,
                invariant
                    w == world@,
                    n == tableau_cards@.len(),
                    n == pile.len(),
                    forall|j: int| 0 <= j < n ==> #[trigger] tableau_cards@[j].0 == pile[j],
                    i <= k,
                    k <= n,
                    k == (if (position_in_stack as int) < n { position_in_stack as int } else { n as int }),
                    TABLEAU_START_Y + offsets_sum(w, pile.take(k)) <= i32::MAX,
                    i < n || n == 0,
                    offsets_sum(w, pile.take(0)) == 0,
                ensures
                    calculated_y == TABLEAU_START_Y + offsets_sum(w, pile.take(k)),
                decreases n - i,
            {
                if i == position_in_stack as usize {
                    calculated_y = current_y;
                    break;
                }
                let entity = tableau_cards[i];
                proof {
                    assert(pile.take(i + 1).drop_last() =~= pile.take(i as int));
                    lemma_offsets_prefix(w, pile.take(k), i + 1);
                    assert(pile.take(k).take(i + 1) =~= pile.take(i + 1));
                }
                if let Some(card) = world.get_component::<Card>(entity) {
                    current_y = current_y + if card.is_face_up { TABLEAU_Y_OFFSET_FACE_UP } else { TABLEAU_Y_OFFSET_FACE_DOWN };
                } else {
                    current_y = current_y + TABLEAU_Y_OFFSET_FACE_DOWN;
                }
                if i == n - 1 {
                    calculated_y = current_y;
                    break;
                }
                i = i + 1;
            }
            if n == 0 {
                assert(pile.take(k) =~= Seq::<usize>::empty());
            }
            Position { x: base_x, y: calculated_y }
        },
        StackType::Hand => Position { x: 0, y: 0 },
    }
}

} // verus!
