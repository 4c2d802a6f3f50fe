//! What a card dropped on a pile that takes it does to the world, and the message
//! that tells the server.

use vstd::prelude::*;
use crate::components::{Card, Position, StackInfo, StackType};
use crate::entity::Entity;
use crate::ecs::world::{World, WorldView, component_of};
use crate::app::layout_calculator::{calculate_card_position, card_position};
use crate::app::stock_handler::{pile_entries, update_entry, turn_card};
use crate::systems::move_card_system::target_slot;
use crate::protocol::ClientMessage;

verus! {

/// The world with `moved` placed at position `p` of pile `target` and drawn at `pos`;
/// an entity without a stack info stays as it is.
pub open spec fn card_moved(w: WorldView, moved: usize, target: StackType, pos: Position, p: u8) -> WorldView {
    if component_of::<StackInfo>(w, moved) is Some {
        WorldView {
            stack_infos: update_entry(w.stack_infos, moved, StackInfo { stack_type: target, position_in_stack: p }),
            positions: update_entry(w.positions, moved, pos),
            ..w
        }
    } else {
        w
    }
}

/// `id` is a living entity at position `p` of pile `st`.
pub open spec fn at_slot(w: WorldView, st: StackType, p: u8, id: usize) -> bool {
    &&& w.entities.contains(id)
    &&& component_of::<StackInfo>(w, id) == Some(StackInfo { stack_type: st, position_in_stack: p })
}

/// `id` is the entity with the smallest identifier at position `p` of pile `st`.
pub open spec fn first_at_slot(w: WorldView, st: StackType, p: u8, id: usize) -> bool {
    &&& at_slot(w, st, p, id)
    &&& forall|j: usize| #[trigger] at_slot(w, st, p, j) ==> id <= j
}

/// The entity at position `p` of pile `st` (the smallest identifier if several share
/// it), if there is one.
pub open spec fn slot_holder(w: WorldView, st: StackType, p: u8) -> Option<usize> {
    if exists|id: usize| first_at_slot(w, st, p, id) {
        Some(choose|id: usize| first_at_slot(w, st, p, id))
    } else {
        None
    }
}

/// The world once the card left behind is turned face up: a card lifted from position
/// `moved_pos` of a tableau pile uncovers the card at the position below it.
pub open spec fn revealed(w: WorldView, origin: StackType, moved_pos: u8) -> WorldView {
    if origin is Tableau && moved_pos > 0 && slot_holder(w, origin, (moved_pos - 1) as u8) is Some {
        WorldView { cards: turn_card(w.cards, slot_holder(w, origin, (moved_pos - 1) as u8).unwrap(), true), ..w }
    } else {
        w
    }
}

/// The world after `moved` is dropped on pile `target`: it takes the next place of that
/// pile and the position drawn for that place, and the card it leaves behind on its
/// pile of origin (`origin`, its stack info before the move) is turned face up.
pub open spec fn drop_result(w: WorldView, moved: usize, target: StackType, origin: Option<StackInfo>) -> WorldView {
    let p = target_slot(w, target);
    let xy = card_position(w, target, p);
    let w1 = card_moved(w, moved, target, Position { x: xy.0 as i32, y: xy.1 as i32 }, p);
    match origin {
        Some(si) => revealed(w1, si.stack_type, si.position_in_stack),
        None => w1,
    }
}

proof fn lemma_first_at_slot_unique(w: WorldView, st: StackType, p: u8, a: usize, b: usize)
    requires
        first_at_slot(w, st, p, a),
        first_at_slot(w, st, p, b),
    ensures
        a == b,
{
    assert(a <= b);
    assert(b <= a);
}

/// Puts `moved_entity` at position `new_position_in_stack` of pile `target_stack`, drawn
/// at `new_position`; does nothing to an entity without a stack info.
fn apply_card_move_to_world(
    world: &mut World,
    moved_entity: Entity,
    target_stack_type: StackType,
    new_position: &Position,
    new_position_in_stack: u8,
)
    requires
        old(world).wf(),
    ensures
        final(world)@ == card_moved(old(world)@, moved_entity.0, target_stack_type, *new_position, new_position_in_stack),
        final(world).wf(),
{
    let ghost w0 = world@;
    if let Some(stack_info) = world.get_component_mut::<StackInfo>(moved_entity) {
        stack_info.stack_type = target_stack_type;
        stack_info.position_in_stack = new_position_in_stack;
    } else {
        return;
    }
    if let Some(pos_comp) = world.get_component_mut::<Position>(moved_entity) {
        *pos_comp = *new_position;
    }
    proof {
        assert(world@ =~= card_moved(w0, moved_entity.0, target_stack_type, *new_position, new_position_in_stack));
    }
}

/// When a card left position `moved_card_original_pos` of a tableau pile, turns the
/// card at the position below it face up (the smallest identifier if several lie there).
fn reveal_underlying_card_if_needed(world: &mut World, original_stack_type: StackType, moved_card_original_pos: u8)
    requires
        old(world).wf(),
    ensures
        final(world)@ == revealed(old(world)@, original_stack_type, moved_card_original_pos),
        final(world).wf(),
{
    let ghost w0 = world@;
    if let StackType::Tableau(_) = original_stack_type {
        if moved_card_original_pos > 0 {
            let position_below = moved_card_original_pos - 1;
            let stack_entities = world.get_all_entities_with_component::<StackInfo>();
            let n = stack_entities.len();
            let mut found: Option<Entity> = None;
            let mut i: usize = 0;
            while i < n
                invariant
                    w0 == world@,
                    n == stack_entities@.len(),
                    i <= n,
                    forall|e: Entity| #[trigger] stack_entities@.contains(e) <==> (component_of::<StackInfo>(w0, e.0) is Some
                        && w0.entities.contains(e.0)),
                    match found {
                        Some(f) => at_slot(w0, original_stack_type, position_below, f.0)
                            && forall|j: int| 0 <= j < i && at_slot(w0, original_stack_type, position_below, #[trigger] stack_entities@[j].0)
                                ==> f.0 <= stack_entities@[j].0,
                        None => forall|j: int| 0 <= j < i ==> !at_slot(w0, original_stack_type, position_below, #[trigger] stack_entities@[j].0),
                    },
                decreases n - i,
            {
                let e = stack_entities[i];
                assert(stack_entities@.contains(e));
                if let Some(si) = world.get_component::<StackInfo>(e) {
                    if si.stack_type == original_stack_type && si.position_in_stack == position_below {
                        let smaller = match found {
                            None => true,
                            Some(f) => e.0 < f.0,
                        };
                        if smaller {
                            found = Some(e);
                        }
                    }
                }
                i = i + 1;
            }
            proof {
                match found {
                    Some(f) => {
                        assert forall|j: usize| #[trigger] at_slot(w0, original_stack_type, position_below, j) implies f.0 <= j by {
                            assert(stack_entities@.contains(Entity(j)));
                            let k = choose|k: int| 0 <= k < n && stack_entities@[k] == Entity(j);
                            assert(stack_entities@[k].0 == j);
                        }
                        assert(first_at_slot(w0, original_stack_type, position_below, f.0));
                        let c = choose|id: usize| first_at_slot(w0, original_stack_type, position_below, id);
                        lemma_first_at_slot_unique(w0, original_stack_type, position_below, c, f.0);
                        assert(slot_holder(w0, original_stack_type, position_below) == Some(f.0));
                    },
                    None => {
                        assert forall|id: usize| !first_at_slot(w0, original_stack_type, position_below, id) by {
                            if at_slot(w0, original_stack_type, position_below, id) {
                                assert(stack_entities@.contains(Entity(id)));
                                let k = choose|k: int| 0 <= k < n && stack_entities@[k] == Entity(id);
                                assert(stack_entities@[k].0 == id);
                            }
                        }
                    },
                }
            }
            if let Some(card_below_entity) = found {
                if let Some(card_below) = world.get_component_mut::<Card>(card_below_entity) {
                    if !card_below.is_face_up {
                        card_below.is_face_up = true;
                    }
                }
                proof {
                    let m = w0.cards;
                    if let Some(mm) = m {
                        if mm.contains_key(card_below_entity.0) {
                            assert(mm.insert(card_below_entity.0, Card { is_face_up: true, ..mm[card_below_entity.0] })
                                =~= world@.cards.unwrap());
                        }
                    }
                    assert(world@ =~= revealed(w0, original_stack_type, moved_card_original_pos));
                }
            }
        }
    }
}

/// Carries out the drop of `moved_entity` on pile `target_stack_type`, which takes it:
/// the card goes to the next place of that pile, drawn where that place lies (an entity
/// without a stack info stays where it is), and the card it uncovers on its pile of origin (`original_stack_info`, its stack info before
/// the move) is turned face up. Returns the message that tells the server of the move.
pub fn update_world_and_notify_server(
    world: &mut World,
    moved_entity: Entity,
    target_stack_type: StackType,
    original_stack_info: &Option<StackInfo>,
) -> (message: ClientMessage)
    requires
        old(world).wf(),
        component_of::<StackInfo>(old(world)@, moved_entity.0) is Some ==> !(target_stack_type is Hand),
    ensures
        final(world)@ == drop_result(old(world)@, moved_entity.0, target_stack_type, *original_stack_info),
        final(world).wf(),
        message == (ClientMessage::MakeMove { moved_entity, target_stack: target_stack_type }),
{
    let ghost w0 = world@;
    let target_stack_current_size = {
        let stack_entities = world.get_all_entities_with_component::<StackInfo>();
        let entries = pile_entries(world, &stack_entities, target_stack_type, false);
        entries.len() as u8
    };
    if world.get_component::<StackInfo>(moved_entity).is_some() {
        let new_position = calculate_card_position(target_stack_type, target_stack_current_size, world);
        apply_card_move_to_world(world, moved_entity, target_stack_type, &new_position, target_stack_current_size);
    }
    if let Some(origin) = original_stack_info {
        reveal_underlying_card_if_needed(world, origin.stack_type, origin.position_in_stack);
    }
    ClientMessage::MakeMove { moved_entity, target_stack: target_stack_type }
}

/// When some entity lies at place `p` of pile `st`, one with the smallest identifier does.
proof fn lemma_some_first_at_slot(w: WorldView, st: StackType, p: u8, id: usize)
    requires
        at_slot(w, st, p, id),
    ensures
        exists|j: usize| first_at_slot(w, st, p, j),
    decreases id,
{
    if forall|j: usize| #[trigger] at_slot(w, st, p, j) ==> id <= j {
        assert(first_at_slot(w, st, p, id));
    } else {
        let j = choose|j: usize| #[trigger] at_slot(w, st, p, j) && !(id <= j);
        lemma_some_first_at_slot(w, st, p, j);
    }
}

/// What lifting a card off its pile turns up: when it left place `p > 0` of a tableau
/// pile, only a card at place `p - 1` of that pile (the new top) may change, and only by
/// turning face up; when exactly one entity lies there, its card is face up afterwards.
/// Every other card, and everything else in the world, stays as it was; a card lifted
/// from the bottom of a pile, or from any other pile, turns up nothing.
pub proof fn lemma_reveal_turns_up_the_new_top(w: WorldView, origin: StackType, p: u8)
    ensures
        ({
            let r = revealed(w, origin, p);
            &&& r.entities == w.entities
            &&& r.stack_infos == w.stack_infos
            &&& r.positions == w.positions
            &&& forall|id: usize| #![trigger component_of::<Card>(r, id)]
                component_of::<Card>(r, id) != component_of::<Card>(w, id) ==> {
                    &&& origin is Tableau
                    &&& p > 0
                    &&& at_slot(w, origin, (p - 1) as u8, id)
                    &&& component_of::<Card>(w, id) matches Some(c)
                    &&& component_of::<Card>(r, id) == Some(Card { is_face_up: true, ..c })
                }
            &&& forall|id: usize| #![trigger at_slot(w, origin, (p - 1) as u8, id)]
                origin is Tableau && p > 0 && at_slot(w, origin, (p - 1) as u8, id)
                && component_of::<Card>(w, id) is Some
                && (forall|j: usize| #[trigger] at_slot(w, origin, (p - 1) as u8, j) ==> j == id)
                ==> component_of::<Card>(r, id).unwrap().is_face_up
            &&& !(origin is Tableau && p > 0) ==> r == w
        }),
{
    if origin is Tableau && p > 0 {
        let q = (p - 1) as u8;
        if slot_holder(w, origin, q) is Some {
            let h = slot_holder(w, origin, q).unwrap();
            assert(first_at_slot(w, origin, q, h)) by {
                assert(exists|id: usize| first_at_slot(w, origin, q, id));
            }
        } else {
            assert forall|id: usize| !at_slot(w, origin, q, id) by {
                if at_slot(w, origin, q, id) {
                    assert(exists|j: usize| first_at_slot(w, origin, q, j)) by {
                        lemma_some_first_at_slot(w, origin, q, id);
                    }
                }
            }
        }
    }
}

} // verus!
