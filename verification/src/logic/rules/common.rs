//! What the world-based rules share: suits of the foundations and the top card of a pile.

use vstd::prelude::*;
use crate::components::card::{Card, Suit, suit_of_index};
use crate::components::stack::{StackType, StackInfo};
use crate::entity::Entity;
use crate::ecs::world::{World, WorldView, component_of, in_stack};

pub use crate::rules::CardColor;

verus! {

/// The position in its pile of entity `id` (meaningful when it holds a stack info).
pub open spec fn pos_in_stack(w: WorldView, id: usize) -> int {
    component_of::<StackInfo>(w, id).unwrap().position_in_stack as int
}

/// `a` lies below `b`, or is `b`: a lower position, or the same position and a smaller identifier.
pub open spec fn stack_le(w: WorldView, a: usize, b: usize) -> bool {
    pos_in_stack(w, a) < pos_in_stack(w, b) || (pos_in_stack(w, a) == pos_in_stack(w, b) && a <= b)
}

/// `id` is a living entity of pile `st` (holding a card too, when `need_card`).
pub open spec fn is_member(w: WorldView, st: StackType, need_card: bool, id: usize) -> bool {
    &&& w.entities.contains(id)
    &&& in_stack(w, id, st)
    &&& need_card ==> component_of::<Card>(w, id) is Some
}

/// `id` is the top of pile `st`: a member, and no member lies above it.
pub open spec fn is_top(w: WorldView, st: StackType, need_card: bool, id: usize) -> bool {
    &&& is_member(w, st, need_card, id)
    &&& forall|j: usize| #[trigger] is_member(w, st, need_card, j) ==> stack_le(w, j, id)
}

/// The top of pile `st`, or `None` when the pile has no member.
pub open spec fn top_of(w: WorldView, st: StackType, need_card: bool) -> Option<usize> {
    if exists|id: usize| is_top(w, st, need_card, id) {
        Some(choose|id: usize| is_top(w, st, need_card, id))
    } else {
        None
    }
}

/// A pile has at most one top.
pub proof fn lemma_top_unique(w: WorldView, st: StackType, need_card: bool, a: usize, b: usize)
    requires
        is_top(w, st, need_card, a),
        is_top(w, st, need_card, b),
    ensures
        a == b,
{
    assert(stack_le(w, a, b));
    assert(stack_le(w, b, a));
}

/// The top of a pile is the member found to lie above all others.
pub proof fn lemma_top_of(w: WorldView, st: StackType, need_card: bool, id: usize)
    requires
        is_top(w, st, need_card, id),
    ensures
        top_of(w, st, need_card) == Some(id),
{
    let c = choose|x: usize| is_top(w, st, need_card, x);
    lemma_top_unique(w, st, need_card, c, id);
}

/// Among `candidates`, which hold every member of pile `st`, the top of that pile.
pub fn find_top_in(world: &World, candidates: &Vec<Entity>, st: StackType, need_card: bool) -> (r: Option<Entity>)
    requires
        world.wf(),
        forall|id: usize| is_member(world@, st, need_card, id) ==> candidates@.contains(Entity(id)),
    ensures
        match r {
            Some(e) => top_of(world@, st, need_card) == Some(e.0),
            None => top_of(world@, st, need_card) is None
                && forall|id: usize| !is_member(world@, st, need_card, id),
        },
{
    let ghost w = world@;
    let mut best: Option<Entity> = None;
    let mut best_pos: u8 = 0;
    let n = candidates.len();
    let mut i: usize = 0;
    while i < n
        invariant
            w == world@,
            n == candidates@.len(),
            i <= n,
            match best {
                Some(b) => is_member(w, st, need_card, b.0) && best_pos == pos_in_stack(w, b.0)
                    && forall|j: int| 0 <= j < i && is_member(w, st, need_card, #[trigger] candidates@[j].0)
                        ==> stack_le(w, candidates@[j].0, b.0),
                None => forall|j: int| 0 <= j < i ==> !is_member(w, st, need_card, #[trigger] candidates@[j].0),
            },
        decreases n - i,
    {
        let e = candidates[i];
        let alive = world.is_entity_alive(e);
        let has_card = if need_card { world.get_component::<Card>(e).is_some() } else { true };
        match world.get_component::<StackInfo>(e) {
            Some(si) => {
                if alive && has_card && si.stack_type == st {
                    let better = match best {
                        None => true,
                        Some(b) => best_pos < si.position_in_stack || (best_pos == si.position_in_stack && b.0 < e.0),
                    };
                    if better {
                        best = Some(e);
                        best_pos = si.position_in_stack;
                    }
                }
            },
            None => {},
        }
        i = i + 1;
    }
    match best {
        Some(b) => {
            proof {
                assert forall|j: usize| #[trigger] is_member(w, st, need_card, j) implies stack_le(w, j, b.0) by {
                    assert(candidates@.contains(Entity(j)));
                    let k = choose|k: int| 0 <= k < n && candidates@[k] == Entity(j);
                    assert(candidates@[k].0 == j);
                }
                lemma_top_of(w, st, need_card, b.0);
            }
        },
        None => {
            proof {
                assert forall|id: usize| !is_member(w, st, need_card, id) by {
                    if is_member(w, st, need_card, id) {
                        assert(candidates@.contains(Entity(id)));
                        let k = choose|k: int| 0 <= k < n && candidates@[k] == Entity(id);
                        assert(candidates@[k].0 == id);
                    }
                }
            }
        },
    }
    best
}

/// The suit that foundation `foundation_index` collects: Heart, Diamond, Club, Spade for 0 to 3.
pub fn get_foundation_suit(foundation_index: u8) -> (r: Option<Suit>)
    ensures
        r == (if foundation_index < 4 { Some(suit_of_index(foundation_index as int)) } else { None }),
{
    match foundation_index {
        0 => Some(Suit::Heart),
        1 => Some(Suit::Diamond),
        2 => Some(Suit::Club),
        3 => Some(Suit::Spade),
        _ => None,
    }
}

/// The entity on top of pile `target_stack` (the highest position; the larger
/// identifier among equal positions), if the pile has one.
pub fn get_top_card_entity(world: &World, target_stack: StackType) -> (r: Option<Entity>)
    requires
        world.wf(),
    ensures
        match r {
            Some(e) => top_of(world@, target_stack, false) == Some(e.0),
            None => top_of(world@, target_stack, false) is None,
        },
{
    let stack_entities = world.get_all_entities_with_component::<StackInfo>();
    find_top_in(world, &stack_entities, target_stack, false)
}

} // verus!
