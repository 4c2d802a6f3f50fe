//! What a click or a double click on the board refers to, and what it asks of the server.

use vstd::prelude::*;
use crate::components::{Card, Position, StackType};
use crate::entity::Entity;
use crate::ecs::world::{World, WorldView, component_of};
use crate::app::renderer::{RENDER_CARD_WIDTH, RENDER_CARD_HEIGHT};
use crate::logic::auto_move::{find_automatic_foundation_move, foundation_takes};
use crate::protocol::ClientMessage;
use crate::app::stock_handler::{handle_stock_click, pile_set, stock_to_waste, reset_result};
use crate::logic::rules::common::top_of;
use crate::config::layout::{
    STOCK_POS_X, STOCK_POS_Y, WASTE_POS_X, WASTE_POS_Y, FOUNDATION_START_X, FOUNDATION_START_Y,
    FOUNDATION_X_OFFSET, TABLEAU_START_X, TABLEAU_START_Y, TABLEAU_X_OFFSET,
};

verus! {

/// What a click landed on: a card, or the empty area of a pile.
#[derive(Debug, Clone, Copy, PartialEq, Eq, Structural)]
pub enum ClickTarget {
    Card(Entity),
    Stack(StackType),
}

/// The point `(x, y)` lies on the drawn card of entity `id`: a living card holder with
/// a position, other than the entity to ignore, whose card rectangle holds the point.
pub open spec fn card_hit(w: WorldView, x: int, y: int, ignore: Option<Entity>, id: usize) -> bool {
    &&& w.entities.contains(id)
    &&& ignore != Some(Entity(id))
    &&& component_of::<Card>(w, id) is Some
    &&& component_of::<Position>(w, id) is Some
    &&& {
        let p = component_of::<Position>(w, id).unwrap();
        &&& p.x <= x < p.x + RENDER_CARD_WIDTH
        &&& p.y <= y < p.y + RENDER_CARD_HEIGHT
    }
}

/// The height of the drawn card of `id`.
pub open spec fn card_top(w: WorldView, id: usize) -> int {
    component_of::<Position>(w, id).unwrap().y as int
}

/// `id` is the card hit at `(x, y)` that lies lowest on the board: every other card
/// hit there starts higher up, or as high and with a smaller identifier.
pub open spec fn topmost_hit(w: WorldView, x: int, y: int, ignore: Option<Entity>, id: usize) -> bool {
    &&& card_hit(w, x, y, ignore, id)
    &&& forall|j: usize| #[trigger] card_hit(w, x, y, ignore, j) ==> card_top(w, j) < card_top(w, id)
        || (card_top(w, j) == card_top(w, id) && j <= id)
}

/// The card under the point `(x, y)` that lies lowest on the board (cards further down
/// a pile cover the ones above them), leaving out `dragged_entity_to_ignore`; among
/// cards at the same height, the one with the largest identifier.
pub fn find_topmost_clicked_card(world: &World, x: i32, y: i32, dragged_entity_to_ignore: Option<Entity>) -> (r: Option<ClickTarget>)
    ensures
        match r {
            Some(ClickTarget::Card(e)) => topmost_hit(world@, x as int, y as int, dragged_entity_to_ignore, e.0),
            Some(ClickTarget::Stack(_)) => false,
            None => forall|id: usize| !card_hit(world@, x as int, y as int, dragged_entity_to_ignore, id),
        },
{
    let ghost w = world@;
    let position_entities = world.get_all_entities_with_component::<Position>();
    let n = position_entities.len();
    let mut best: Option<(Entity, i32)> = None;
    let mut i: usize = 0;
    while i < n
        invariant
            n == position_entities@.len(),
            i <= n,
            w == world@,
            forall|e: Entity| #[trigger] position_entities@.contains(e) <==> (component_of::<Position>(w, e.0) is Some
                && w.entities.contains(e.0)),
            match best {
                Some((b, by)) => card_hit(w, x as int, y as int, dragged_entity_to_ignore, b.0)
                    && by == card_top(w, b.0)
                    && forall|j: int| 0 <= j < i && card_hit(w, x as int, y as int, dragged_entity_to_ignore, #[trigger] position_entities@[j].0)
                        ==> card_top(w, position_entities@[j].0) < by
                            || (card_top(w, position_entities@[j].0) == by && position_entities@[j].0 <= b.0),
                None => forall|j: int| 0 <= j < i ==> !card_hit(w, x as int, y as int, dragged_entity_to_ignore, #[trigger] position_entities@[j].0),
            },
        decreases n - i,
    {
        let entity = position_entities[i];
        assert(position_entities@.contains(entity));
        let ignored = match dragged_entity_to_ignore {
            Some(ignore_entity) => ignore_entity.0 == entity.0,
            None => false,
        };
        if !ignored && world.get_component::<Card>(entity).is_some() {
            if let Some(pos) = world.get_component::<Position>(entity) {
                let card_left = pos.x as i64;
                let card_top = pos.y as i64;
                let card_right = card_left + RENDER_CARD_WIDTH as i64;
                let card_bottom = card_top + RENDER_CARD_HEIGHT as i64;
                let is_inside = x as i64 >= card_left && (x as i64) < card_right && y as i64 >= card_top && (y as i64) < card_bottom;
                if is_inside {
                    let better = match best {
                        None => true,
                        Some((b, by)) => pos.y > by || (pos.y == by && entity.0 > b.0),
                    };
                    if better {
                        best = Some((entity, pos.y));
                    }
                }
            }
        }
        i = i + 1;
    }
    match best {
        Some((b, _)) => {
            proof {
                assert forall|j: usize| #[trigger] card_hit(w, x as int, y as int, dragged_entity_to_ignore, j) implies card_top(w, j)
                    < card_top(w, b.0) || (card_top(w, j) == card_top(w, b.0) && j <= b.0) by {
                    assert(position_entities@.contains(Entity(j)));
                    let k = choose|k: int| 0 <= k < n && position_entities@[k] == Entity(j);
                    assert(position_entities@[k].0 == j);
                }
            }
            Some(ClickTarget::Card(b))
        },
        None => {
            proof {
                assert forall|id: usize| !card_hit(w, x as int, y as int, dragged_entity_to_ignore, id) by {
                    if card_hit(w, x as int, y as int, dragged_entity_to_ignore, id) {
                        assert(position_entities@.contains(Entity(id)));
                        let k = choose|k: int| 0 <= k < n && position_entities@[k] == Entity(id);
                        assert(position_entities@[k].0 == id);
                    }
                }
            }
            None
        },
    }
}

/// The corner of the card-sized area that pile `st` takes on the board (the hand has
/// no area; its corner is never asked for).
pub open spec fn stack_area_corner(st: StackType) -> (int, int) {
    match st {
        StackType::Stock => (STOCK_POS_X as int, STOCK_POS_Y as int),
        StackType::Waste => (WASTE_POS_X as int, WASTE_POS_Y as int),
        StackType::Foundation(i) => (FOUNDATION_START_X + FOUNDATION_X_OFFSET * i, FOUNDATION_START_Y as int),
        StackType::Tableau(i) => (TABLEAU_START_X + TABLEAU_X_OFFSET * i, TABLEAU_START_Y as int),
        StackType::Hand => (0, 0),
    }
}

/// The point `(x, y)` lies in the card-sized area of pile `st`.
pub open spec fn in_stack_area(st: StackType, x: int, y: int) -> bool {
    let (ax, ay) = stack_area_corner(st);
    &&& ax <= x < ax + RENDER_CARD_WIDTH
    &&& ay <= y < ay + RENDER_CARD_HEIGHT
}

/// The `k`-th pile in the order in which pile areas are tried: the stock, the waste,
/// foundations 0 to 3, then tableau piles 0 to 6.
pub open spec fn area_order(k: int) -> StackType {
    if k == 0 {
        StackType::Stock
    } else if k == 1 {
        StackType::Waste
    } else if k < 6 {
        StackType::Foundation((k - 2) as u8)
    } else {
        StackType::Tableau((k - 6) as u8)
    }
}

/// The first pile, from the `k`-th on in `area_order`, whose area holds `(x, y)`.
pub open spec fn first_area_from(x: int, y: int, k: int) -> Option<StackType>
    decreases 13 - k,
{
    if k >= 13 {
        None
    } else if in_stack_area(area_order(k), x, y) {
        Some(area_order(k))
    } else {
        first_area_from(x, y, k + 1)
    }
}

/// The pile whose area holds the point `(x, y)`: the first in `area_order`, if any.
pub open spec fn stack_area(x: int, y: int) -> Option<StackType> {
    first_area_from(x, y, 0)
}

/// The pile area under the point `(x, y)`: each pile (the stock, the waste, foundations
/// 0 to 3, tableau piles 0 to 6, in that order) takes a card-sized area at the place
/// that the layout gives it, and the first area that holds the point is returned.
pub fn find_clicked_stack_area(_world: &World, x: i32, y: i32) -> (r: Option<ClickTarget>)
    ensures
        match stack_area(x as int, y as int) {
            Some(st) => r == Some(ClickTarget::Stack(st)),
            None => r is None,
        },
{
    let mut k: u8 = 0;
    while k < 13
        invariant
            k <= 13,
            stack_area(x as int, y as int) == first_area_from(x as int, y as int, k as int),
        decreases 13 - k,
    {
        let st = if k == 0 {
            StackType::Stock
        } else if k == 1 {
            StackType::Waste
        } else if k < 6 {
            StackType::Foundation(k - 2)
        } else {
            StackType::Tableau(k - 6)
        };
        let (ax, ay): (i64, i64) = match st {
            StackType::Stock => (STOCK_POS_X as i64, STOCK_POS_Y as i64),
            StackType::Waste => (WASTE_POS_X as i64, WASTE_POS_Y as i64),
            StackType::Foundation(i) => (
                FOUNDATION_START_X as i64 + FOUNDATION_X_OFFSET as i64 * i as i64,
                FOUNDATION_START_Y as i64,
            ),
            StackType::Tableau(i) => (TABLEAU_START_X as i64 + TABLEAU_X_OFFSET as i64 * i as i64, TABLEAU_START_Y as i64),
            StackType::Hand => (0, 0),
        };
        assert(st == area_order(k as int));
        assert((ax as int, ay as int) == stack_area_corner(st));
        let xi = x as i64;
        let yi = y as i64;
        if ax <= xi && xi < ax + RENDER_CARD_WIDTH as i64 && ay <= yi && yi < ay + RENDER_CARD_HEIGHT as i64 {
            return Some(ClickTarget::Stack(st));
        }
        k = k + 1;
    }
    None
}

/// What a click at `(x, y)` finds in `w`, leaving out the card `ignore`: the card hit
/// there that lies lowest on the board (`Some(Card(_))` holds one such card), else the
/// area of the pile there (`stack_area`).
pub open spec fn clicked_element_ok(w: WorldView, x: int, y: int, ignore: Option<Entity>, r: Option<ClickTarget>) -> bool {
    match r {
        Some(ClickTarget::Card(e)) => topmost_hit(w, x, y, ignore, e.0),
        Some(ClickTarget::Stack(st)) => (forall|id: usize| !card_hit(w, x, y, ignore, id)) && stack_area(x, y) == Some(st),
        None => (forall|id: usize| !card_hit(w, x, y, ignore, id)) && stack_area(x, y) is None,
    }
}

/// What lies under the point `(x, y)`: the topmost card there (leaving out
/// `dragged_entity`), else the area of a pile.
pub fn find_clicked_element(world: &World, x: i32, y: i32, dragged_entity: Option<Entity>) -> (r: Option<ClickTarget>)
    ensures
        clicked_element_ok(world@, x as int, y as int, dragged_entity, r),
{
    let card_target = find_topmost_clicked_card(world, x, y, dragged_entity);
    if card_target.is_some() {
        return card_target;
    }
    find_clicked_stack_area(world, x, y)
}

/// A double click on the card of `entity_id`: when a foundation takes that card (the
/// first of foundations 0 to 3 that does), the move to send to the server; otherwise,
/// or when the entity holds no card, nothing.
pub fn handle_double_click_logic(entity_id: usize, world: &World) -> (r: Option<ClientMessage>)
    requires
        world.wf(),
    ensures
        match component_of::<Card>(world@, entity_id) {
            None => r is None,
            Some(c) => match r {
                Some(ClientMessage::MakeMove { moved_entity, target_stack }) => moved_entity == Entity(entity_id)
                    && exists|i: u8| #![trigger foundation_takes(world@, c, i)] i < 4 && target_stack == StackType::Foundation(i)
                        && foundation_takes(world@, c, i)
                        && forall|j: u8| j < i ==> !foundation_takes(world@, c, j),
                Some(_) => false,
                None => forall|i: u8| i < 4 ==> !foundation_takes(world@, c, i),
            },
        },
{
    let entity = Entity(entity_id);
    let card_to_move = match world.get_component::<Card>(entity) {
        Some(card) => *card,
        None => {
            return None;
        },
    };
    match find_automatic_foundation_move(&card_to_move, world) {
        Some(target_stack) => Some(ClientMessage::MakeMove { moved_entity: entity, target_stack }),
        None => None,
    }
}

/// The world after a click on the stock: its top goes to the waste, or, with the stock
/// empty, the waste goes back to the stock.
pub open spec fn stock_click_result(w: WorldView) -> WorldView {
    if top_of(w, StackType::Stock, false) is Some {
        stock_to_waste(w, false)
    } else if pile_set(w, StackType::Waste, false).len() > 0 {
        reset_result(w, false)
    } else {
        w
    }
}

/// A click at `(x, y)`: finds what it landed on (which it returns) and, when that is the
/// area of the stock, deals from the stock; a click elsewhere changes nothing.
pub fn handle_click(world: &mut World, x: i32, y: i32) -> (r: Option<ClickTarget>)
    requires
        old(world).wf(),
    ensures
        final(world).wf(),
        clicked_element_ok(old(world)@, x as int, y as int, None, r),
        final(world)@ == (if r == Some(ClickTarget::Stack(StackType::Stock)) {
            stock_click_result(old(world)@)
        } else {
            old(world)@
        }),
{
    let target_element = find_clicked_element(world, x, y, None);
    if let Some(ClickTarget::Stack(StackType::Stock)) = target_element {
        handle_stock_click(world);
    }
    target_element
}

/// The entity of the topmost card at `(x, y)`, if a card lies there.
pub fn get_entity_id_at(world: &World, x: i32, y: i32) -> (r: Option<usize>)
    ensures
        match r {
            Some(id) => topmost_hit(world@, x as int, y as int, None, id),
            None => forall|id: usize| !card_hit(world@, x as int, y as int, None, id),
        },
{
    match find_topmost_clicked_card(world, x, y, None) {
        Some(ClickTarget::Card(entity)) => Some(entity.0),
        _ => None,
    }
}

} // verus!
