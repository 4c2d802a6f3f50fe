//! Dragging a card: picking it up, following the pointer, and dropping it.

use vstd::prelude::*;
use crate::components::{Position, StackInfo, StackType, DraggingInfo};
use crate::entity::Entity;
use crate::ecs::world::{World, WorldView, component_of, in_stack, with_component, without_component};
use crate::app::event_handler::{ClickTarget, find_clicked_element, topmost_hit, card_hit, stack_area};
use crate::app::drag_apply_handler::{update_world_and_notify_server, drop_result};
use crate::app::stock_handler::update_entry;
use crate::logic::rules::{can_move_to_foundation, can_move_to_tableau};
use crate::logic::rules::foundation::foundation_move_ok;
use crate::logic::rules::tableau::tableau_move_ok;
use crate::protocol::ClientMessage;

verus! {

/// `id` is the living entity with the smallest identifier whose stack info names pile `st`.
pub open spec fn first_of_stack(w: WorldView, st: StackType, id: usize) -> bool {
    &&& w.entities.contains(id)
    &&& in_stack(w, id, st)
    &&& forall|j: usize| w.entities.contains(j) && in_stack(w, j, st) ==> id <= j
}

/// The entity that stands for pile `st` when a drag starts: the first entity of that
/// pile, or the identifier `usize::MAX` when the pile has none.
pub open spec fn stack_entity(w: WorldView, st: StackType) -> Entity {
    if exists|id: usize| first_of_stack(w, st, id) {
        Entity(choose|id: usize| first_of_stack(w, st, id))
    } else {
        Entity(usize::MAX)
    }
}

/// The world once the card of `id` is picked up at the point `(x, y)`: it remembers its
/// place, its pile, its position and where the pointer grabbed it. Without a position
/// or a stack info nothing happens.
pub open spec fn drag_started(w: WorldView, id: usize, x: int, y: int) -> WorldView {
    match (component_of::<Position>(w, id), component_of::<StackInfo>(w, id)) {
        (Some(p), Some(si)) => with_component(w, id, DraggingInfo {
            original_position_in_stack: si.position_in_stack as usize,
            original_stack_entity: stack_entity(w, si.stack_type),
            original_x: p.x,
            original_y: p.y,
            offset_x: (x - p.x) as i64,
            offset_y: (y - p.y) as i64,
        }),
        _ => w,
    }
}

/// The world once the dragged card of `id` follows the pointer to `(x, y)`, keeping the
/// grip it was picked up with.
pub open spec fn drag_moved(w: WorldView, id: usize, x: int, y: int) -> WorldView {
    match component_of::<DraggingInfo>(w, id) {
        Some(d) => WorldView {
            positions: update_entry(w.positions, id, Position { x: (x - d.offset_x) as i32, y: (y - d.offset_y) as i32 }),
            ..w
        },
        None => w,
    }
}

/// The world with the card of `id` back where its drag started.
pub open spec fn drag_reset(w: WorldView, id: usize, d: DraggingInfo) -> WorldView {
    WorldView { positions: update_entry(w.positions, id, Position { x: d.original_x, y: d.original_y }), ..w }
}

/// The card `moved` may be dropped on pile `target`: only foundations and tableau
/// piles take cards, by their rules.
pub open spec fn drop_allowed(w: WorldView, moved: usize, target: StackType) -> bool {
    match target {
        StackType::Foundation(i) => foundation_move_ok(w, moved, i),
        StackType::Tableau(i) => tableau_move_ok(w, moved, i),
        _ => false,
    }
}

/// The card under the drop point `(x, y)` once the card `moved` is left out, if any.
pub open spec fn card_under(w: WorldView, x: int, y: int, moved: usize) -> Option<usize> {
    if exists|id: usize| topmost_hit(w, x, y, Some(Entity(moved)), id) {
        Some(choose|id: usize| topmost_hit(w, x, y, Some(Entity(moved)), id))
    } else {
        None
    }
}

/// The pile a card dropped at `(x, y)` lands on: the pile of the card found there, when
/// that card has a stack info; with no card there, the pile whose area holds the point.
pub open spec fn drop_pile(w: WorldView, x: int, y: int, moved: usize) -> Option<StackType> {
    match card_under(w, x, y, moved) {
        Some(t) => match component_of::<StackInfo>(w, t) {
            Some(si) => Some(si.stack_type),
            None => None,
        },
        None => stack_area(x, y),
    }
}

/// The drop of the dragged card of `id` at `(x, y)` succeeds: the pile under the drop
/// point takes it.
pub open spec fn drop_succeeds(w: WorldView, id: usize, x: int, y: int) -> bool {
    drop_pile(w, x, y, id) matches Some(st) && drop_allowed(w, id, st)
}

/// The world after the drag of `id` ends at `(x, y)`, once its dragging info is gone:
/// the drop is carried out where it succeeds, else the card goes back.
pub open spec fn drag_end_result(w: WorldView, id: usize, x: int, y: int, d: DraggingInfo) -> WorldView {
    if drop_succeeds(w, id, x, y) {
        drop_result(w, id, drop_pile(w, x, y, id).unwrap(), component_of::<StackInfo>(w, id))
    } else {
        drag_reset(w, id, d)
    }
}

proof fn lemma_topmost_unique(w: WorldView, x: int, y: int, ignore: Option<Entity>, a: usize, b: usize)
    requires
        topmost_hit(w, x, y, ignore, a),
        topmost_hit(w, x, y, ignore, b),
    ensures
        a == b,
{
}

/// Picks up the card of `entity_usize` at the point `(start_x, start_y)`: it gets a
/// dragging info with its place, the entity standing for its pile, its position, and
/// the pointer's offset from its corner. Without a position or a stack info nothing
/// happens.
pub fn handle_drag_start(world: &mut World, entity_usize: usize, start_x: i32, start_y: i32)
    requires
        old(world).wf(),
        component_of::<Position>(old(world)@, entity_usize) is Some && component_of::<StackInfo>(old(world)@, entity_usize) is Some
            ==> old(world)@.dragging_infos is Some,
    ensures
        final(world)@ == drag_started(old(world)@, entity_usize, start_x as int, start_y as int),
        final(world).wf(),
{
    let ghost w0 = world@;
    let entity = Entity(entity_usize);
    let position = match world.get_component::<Position>(entity) {
        Some(p) => *p,
        None => {
            return;
        },
    };
    let stack_info = match world.get_component::<StackInfo>(entity) {
        Some(si) => *si,
        None => {
            return;
        },
    };
    let offset_x = start_x as i64 - position.x as i64;
    let offset_y = start_y as i64 - position.y as i64;
    let original_stack_entity = match world.find_entity_by_stack_type(stack_info.stack_type) {
        Some(e) => {
            proof {
                assert(first_of_stack(w0, stack_info.stack_type, e.0));
                let c = choose|id: usize| first_of_stack(w0, stack_info.stack_type, id);
                assert(c <= e.0 && e.0 <= c);
            }
            e
        },
        None => Entity(usize::MAX),
    };
    let dragging_info = DraggingInfo {
        original_x: position.x,
        original_y: position.y,
        offset_x,
        offset_y,
        original_position_in_stack: stack_info.position_in_stack as usize,
        original_stack_entity,
    };
    world.add_component(entity, dragging_info);
}

/// Moves the dragged card of `entity_id` with the pointer, now at `(mouse_x, mouse_y)`,
/// keeping the offset it was grabbed with; a card that is not dragged stays.
pub fn update_dragged_position(world: &mut World, entity_id: usize, mouse_x: i32, mouse_y: i32)
    requires
        old(world).wf(),
        component_of::<DraggingInfo>(old(world)@, entity_id) matches Some(d) ==> {
            &&& i32::MIN <= mouse_x - d.offset_x <= i32::MAX
            &&& i32::MIN <= mouse_y - d.offset_y <= i32::MAX
        },
    ensures
        final(world)@ == drag_moved(old(world)@, entity_id, mouse_x as int, mouse_y as int),
        final(world).wf(),
{
    let ghost w0 = world@;
    let entity = Entity(entity_id);
    let dragging_info = match world.get_component::<DraggingInfo>(entity) {
        Some(d) => *d,
        None => {
            return;
        },
    };
    let new_card_x = (mouse_x as i64 - dragging_info.offset_x) as i32;
    let new_card_y = (mouse_y as i64 - dragging_info.offset_y) as i32;
    if let Some(position_component) = world.get_component_mut::<Position>(entity) {
        position_component.x = new_card_x;
        position_component.y = new_card_y;
    }
    proof {
        assert(world@ =~= drag_moved(w0, entity_id, mouse_x as int, mouse_y as int));
    }
}

/// Whether the card `moved_entity` may be dropped on pile `target_stack_type`.
fn check_move_validity(world: &World, moved_entity: Entity, target_stack_type: StackType) -> (b: bool)
    requires
        world.wf(),
    ensures
        b == drop_allowed(world@, moved_entity.0, target_stack_type),
{
    match target_stack_type {
        StackType::Foundation(index) => can_move_to_foundation(world, moved_entity, index),
        StackType::Tableau(index) => can_move_to_tableau(world, moved_entity, index),
        _ => false,
    }
}

/// Puts the card of `entity` back where its drag started.
pub fn reset_card_position(world: &mut World, entity: Entity, dragging_info: &DraggingInfo)
    requires
        old(world).wf(),
    ensures
        final(world)@ == drag_reset(old(world)@, entity.0, *dragging_info),
        final(world).wf(),
{
    let ghost w0 = world@;
    let original_position = Position { x: dragging_info.original_x, y: dragging_info.original_y };
    if let Some(pos_comp) = world.get_component_mut::<Position>(entity) {
        *pos_comp = original_position;
    }
    proof {
        assert(world@ =~= drag_reset(w0, entity.0, *dragging_info));
    }
}

/// Ends the drag of the card of `entity_usize` at the point `(end_x, end_y)`. The card
/// loses its dragging info; the card under the drop point (the dragged card left out)
/// names the target pile, and with no card there, the pile area under it does. When that pile takes the card, the move is carried out and
/// the message for the server is returned; otherwise the card goes back where the drag
/// started. A card that was not being dragged is left alone.
pub fn handle_drag_end(world: &mut World, entity_usize: usize, end_x: i32, end_y: i32) -> (r: Option<ClientMessage>)
    requires
        old(world).wf(),
    ensures
        final(world).wf(),
        match component_of::<DraggingInfo>(old(world)@, entity_usize) {
            None => final(world)@ == old(world)@ && r is None,
            Some(d) => {
                let w1 = without_component::<DraggingInfo>(old(world)@, entity_usize);
                &&& final(world)@ == drag_end_result(w1, entity_usize, end_x as int, end_y as int, d)
                &&& r == (if drop_succeeds(w1, entity_usize, end_x as int, end_y as int) {
                    Some(ClientMessage::MakeMove {
                        moved_entity: Entity(entity_usize),
                        target_stack: drop_pile(w1, end_x as int, end_y as int, entity_usize).unwrap(),
                    })
                } else {
                    None
                })
            },
        },
{
    let ghost w0 = world@;
    let entity = Entity(entity_usize);
    let dragging_info = match world.remove_component::<DraggingInfo>(entity) {
        Some(info) => info,
        None => {
            proof {
                if let Some(m) = w0.dragging_infos {
                    assert(m.remove(entity_usize) =~= m);
                }
                assert(world@ =~= w0);
            }
            return None;
        },
    };
    let ghost w1 = world@;
    let original_stack_info: Option<StackInfo> = match world.get_component::<StackInfo>(entity) {
        Some(si) => Some(*si),
        None => None,
    };
    let target_element = find_clicked_element(world, end_x, end_y, Some(entity));
    proof {
        match target_element {
            Some(ClickTarget::Card(t)) => {
                let c = choose|id: usize| topmost_hit(w1, end_x as int, end_y as int, Some(entity), id);
                lemma_topmost_unique(w1, end_x as int, end_y as int, Some(entity), c, t.0);
                assert(card_under(w1, end_x as int, end_y as int, entity_usize) == Some(t.0));
            },
            _ => {
                assert(card_under(w1, end_x as int, end_y as int, entity_usize) is None);
            },
        }
    }
    let mut message: Option<ClientMessage> = None;
    if let Some(click_target) = target_element {
        match click_target {
            ClickTarget::Stack(target_stack_type) => {
                if check_move_validity(world, entity, target_stack_type) {
                    message = Some(update_world_and_notify_server(world, entity, target_stack_type, &original_stack_info));
                }
            },
            ClickTarget::Card(target_card_entity) => {
                if let Some(target_stack_info) = world.get_component::<StackInfo>(target_card_entity) {
                    let target_stack_type = target_stack_info.stack_type;
                    if check_move_validity(world, entity, target_stack_type) {
                        message = Some(update_world_and_notify_server(world, entity, target_stack_type, &original_stack_info));
                    }
                }
            },
        }
    }
    if message.is_none() {
        reset_card_position(world, entity, &dragging_info);
    }
    message
}

/// A card picked up, moved with the pointer, and dropped where no pile takes it leaves
/// the world exactly as it was before the drag.
pub proof fn lemma_failed_drag_restores(w: WorldView, id: usize, x0: int, y0: int, xm: int, ym: int, x1: int, y1: int)
    requires
        w.wf(),
        w.dragging_infos is Some,
        component_of::<Position>(w, id) is Some,
        component_of::<StackInfo>(w, id) is Some,
        component_of::<DraggingInfo>(w, id) is None,
        i32::MIN <= x0 <= i32::MAX,
        i32::MIN <= y0 <= i32::MAX,
        ({
            let d = component_of::<DraggingInfo>(drag_started(w, id, x0, y0), id).unwrap();
            &&& i32::MIN <= xm - d.offset_x <= i32::MAX
            &&& i32::MIN <= ym - d.offset_y <= i32::MAX
        }),
        !drop_succeeds(
            without_component::<DraggingInfo>(drag_moved(drag_started(w, id, x0, y0), id, xm, ym), id),
            id,
            x1,
            y1,
        ),
    ensures
        ({
            let w1 = drag_started(w, id, x0, y0);
            let w2 = drag_moved(w1, id, xm, ym);
            let d = component_of::<DraggingInfo>(w2, id).unwrap();
            drag_end_result(without_component::<DraggingInfo>(w2, id), id, x1, y1, d) == w
        }),
{
    let w1 = drag_started(w, id, x0, y0);
    let w2 = drag_moved(w1, id, xm, ym);
    let d = component_of::<DraggingInfo>(w2, id).unwrap();
    let w3 = without_component::<DraggingInfo>(w2, id);
    let r = drag_end_result(w3, id, x1, y1, d);
    let p = component_of::<Position>(w, id).unwrap();
    assert(d.original_x == p.x && d.original_y == p.y);
    assert(r.positions.unwrap() =~= w.positions.unwrap());
    assert(r.dragging_infos.unwrap() =~= w.dragging_infos.unwrap());
    assert(r =~= w);
}

/// Where a dragged card lands: when a card other than the dragged one lies under the
/// drop point (the lowest one on the board there), the target is that card's pile,
/// wherever the point lies, and the drop succeeds exactly when that pile takes the
/// dragged card; only with no card under the point does the pile area there decide.
pub proof fn lemma_drop_target(w: WorldView, x: int, y: int, id: usize, t: usize)
    ensures
        topmost_hit(w, x, y, Some(Entity(id)), t) ==> match component_of::<StackInfo>(w, t) {
            Some(si) => drop_pile(w, x, y, id) == Some(si.stack_type)
                && (drop_succeeds(w, id, x, y) <==> drop_allowed(w, id, si.stack_type)),
            None => drop_pile(w, x, y, id) is None && !drop_succeeds(w, id, x, y),
        },
        (forall|j: usize| !card_hit(w, x, y, Some(Entity(id)), j)) ==> drop_pile(w, x, y, id) == stack_area(x, y),
{
    if topmost_hit(w, x, y, Some(Entity(id)), t) {
        let c = choose|j: usize| topmost_hit(w, x, y, Some(Entity(id)), j);
        lemma_topmost_unique(w, x, y, Some(Entity(id)), c, t);
        assert(card_under(w, x, y, id) == Some(t));
    }
    if forall|j: usize| !card_hit(w, x, y, Some(Entity(id)), j) {
        assert(card_under(w, x, y, id) is None);
    }
}

} // verus!
