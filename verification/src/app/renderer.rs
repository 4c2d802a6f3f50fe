//! What the board drawing needs to know: card sizes, card texts and the order of piles.

use vstd::prelude::*;
use crate::components::{Card, Position, Rank, Suit, StackInfo, StackType, DraggingInfo};
use crate::entity::Entity;
use crate::ecs::world::{World, WorldView, component_of};

verus! {

/// The size of a drawn card, in pixels.
pub const RENDER_CARD_WIDTH: i32 = 70;
pub const RENDER_CARD_HEIGHT: i32 = 100;
pub const RENDER_CARD_CORNER_RADIUS: i32 = 5;

/// The text shown for a rank.
pub open spec fn rank_text(rank: Rank) -> Seq<char> {
    match rank {
        Rank::Ace => "A"@,
        Rank::Two => "2"@,
        Rank::Three => "3"@,
        Rank::Four => "4"@,
        Rank::Five => "5"@,
        Rank::Six => "6"@,
        Rank::Seven => "7"@,
        Rank::Eight => "8"@,
        Rank::Nine => "9"@,
        Rank::Ten => "10"@,
        Rank::Jack => "J"@,
        Rank::Queen => "Q"@,
        Rank::King => "K"@,
    }
}

/// The symbol shown for a suit.
pub open spec fn suit_text(suit: Suit) -> Seq<char> {
    match suit {
        Suit::Heart => "\u{2665}"@,
        Suit::Diamond => "\u{2666}"@,
        Suit::Spade => "\u{2660}"@,
        Suit::Club => "\u{2663}"@,
    }
}

/// The text shown for `rank`: A, 2 to 10, J, Q, K.
pub fn get_rank_text(rank: Rank) -> (t: &'static str)
    ensures
        t@ == rank_text(rank),
{
    match rank {
        Rank::Ace => "A",
        Rank::Two => "2",
        Rank::Three => "3",
        Rank::Four => "4",
        Rank::Five => "5",
        Rank::Six => "6",
        Rank::Seven => "7",
        Rank::Eight => "8",
        Rank::Nine => "9",
        Rank::Ten => "10",
        Rank::Jack => "J",
        Rank::Queen => "Q",
        Rank::King => "K",
    }
}

/// The symbol shown for `suit`.
pub fn get_suit_text(suit: Suit) -> (t: &'static str)
    ensures
        t@ == suit_text(suit),
{
    match suit {
        Suit::Heart => "\u{2665}",
        Suit::Diamond => "\u{2666}",
        Suit::Spade => "\u{2660}",
        Suit::Club => "\u{2663}",
    }
}

/// The order in which piles are drawn: stock, waste, foundations, tableau, hand.
pub open spec fn draw_order(st: StackType) -> u8 {
    match st {
        StackType::Stock => 0,
        StackType::Waste => 1,
        StackType::Foundation(_) => 2,
        StackType::Tableau(_) => 3,
        StackType::Hand => 4,
    }
}

/// The drawing order of pile `stack_type`.
pub fn stack_type_draw_order(stack_type: StackType) -> (o: u8)
    ensures
        o == draw_order(stack_type),
{
    match stack_type {
        StackType::Stock => 0,
        StackType::Waste => 1,
        StackType::Foundation(_) => 2,
        StackType::Tableau(_) => 3,
        StackType::Hand => 4,
    }
}

/// What the drawing of one card needs: the card, where it is drawn, whether it is being
/// dragged, and the pile it lies in, if any.
#[derive(Debug, Clone, Copy, PartialEq, Eq, Structural)]
pub struct RenderCard {
    pub entity: Entity,
    pub position: Position,
    pub card: Card,
    pub is_dragging: bool,
    pub stack_info: Option<StackInfo>,
}

/// What is drawn of entity `id`: a living card holder with a position.
pub open spec fn render_of(w: WorldView, id: usize) -> Option<RenderCard> {
    if w.entities.contains(id) && component_of::<Card>(w, id) is Some && component_of::<Position>(w, id) is Some {
        Some(RenderCard {
            entity: Entity(id),
            position: component_of::<Position>(w, id).unwrap(),
            card: component_of::<Card>(w, id).unwrap(),
            is_dragging: component_of::<DraggingInfo>(w, id) is Some,
            stack_info: component_of::<StackInfo>(w, id),
        })
    } else {
        None
    }
}

/// The drawing rank of a card in a pile: piles in their drawing order, and within a pile
/// from the bottom up; cards without a pile come last.
pub open spec fn render_key(si: Option<StackInfo>) -> int {
    match si {
        Some(s) => draw_order(s.stack_type) * 256 + s.position_in_stack,
        None => 5int * 256,
    }
}

/// `a` is drawn before `b`: a lower drawing rank, or the same rank and a smaller identifier.
pub open spec fn render_before(a: RenderCard, b: RenderCard) -> bool {
    render_key(a.stack_info) < render_key(b.stack_info)
        || (render_key(a.stack_info) == render_key(b.stack_info) && a.entity.0 < b.entity.0)
}

fn render_key_of(si: Option<StackInfo>) -> (k: u32)
    ensures
        k == render_key(si),
{
    match si {
        Some(s) => stack_type_draw_order(s.stack_type) as u32 * 256 + s.position_in_stack as u32,
        None => 5 * 256,
    }
}

/// Puts `item` into the list `r`, kept in drawing order.
fn insert_in_drawing_order(r: &mut Vec<RenderCard>, item: RenderCard)
    requires
        forall|a: int, b: int| 0 <= a < b < old(r)@.len() ==> render_before(#[trigger] old(r)@[a], #[trigger] old(r)@[b]),
        forall|a: int| 0 <= a < old(r)@.len() ==> (#[trigger] old(r)@[a]).entity != item.entity,
    ensures
        forall|a: int, b: int| 0 <= a < b < final(r)@.len() ==> render_before(#[trigger] final(r)@[a], #[trigger] final(r)@[b]),
        forall|x: RenderCard| #[trigger] final(r)@.contains(x) <==> (old(r)@.contains(x) || x == item),
{
    let key = render_key_of(item.stack_info);
    let mut j: usize = 0;
    while j < r.len()
        invariant
            j <= r@.len(),
            r@ == old(r)@,
            key == render_key(item.stack_info),
            forall|a: int| 0 <= a < j ==> render_before(#[trigger] r@[a], item),
        ensures
            j <= r@.len(),
            r@ == old(r)@,
            forall|a: int| 0 <= a < j ==> render_before(#[trigger] r@[a], item),
            j < r@.len() ==> !render_before(r@[j as int], item),
        decreases r@.len() - j,
    {
        let other = r[j];
        let other_key = render_key_of(other.stack_info);
        if other_key < key || (other_key == key && other.entity.0 < item.entity.0) {
            j = j + 1;
        } else {
            break;
        }
    }
    let ghost r0 = r@;
    proof {
        assert forall|a: int| j <= a < r0.len() implies render_before(item, #[trigger] r0[a]) by {
            if a > j {
                assert(render_before(r0[j as int], r0[a]));
            }
        }
    }
    r.insert(j, item);
    proof {
        assert(r@ == r0.insert(j as int, item));
        assert forall|a: int, b: int| 0 <= a < b < r@.len() implies render_before(#[trigger] r@[a], #[trigger] r@[b]) by {
            if a < j && b < j {
                assert(r@[a] == r0[a] && r@[b] == r0[b]);
            } else if a < j && b == j {
                assert(r@[a] == r0[a]);
            } else if a < j && b > j {
                assert(r@[a] == r0[a] && r@[b] == r0[b - 1]);
                assert(render_before(r0[a], item));
            } else if a == j {
                assert(r@[b] == r0[b - 1]);
            } else {
                assert(r@[a] == r0[a - 1] && r@[b] == r0[b - 1]);
            }
        }
        assert forall|x: RenderCard| #[trigger] r@.contains(x) <==> (r0.contains(x) || x == item) by {
            if r@.contains(x) {
                let a = choose|a: int| 0 <= a < r@.len() && r@[a] == x;
                if a < j {
                    assert(r0[a] == x);
                } else if a > j {
                    assert(r0[a - 1] == x);
                }
            }
            if r0.contains(x) {
                let a = choose|a: int| 0 <= a < r0.len() && r0[a] == x;
                if a < j {
                    assert(r@[a] == x);
                } else {
                    assert(r@[a + 1] == x);
                }
            }
            if x == item {
                assert(r@[j as int] == x);
            }
        }
    }
}

/// Every card to draw, in drawing order: piles in the order stock, waste, foundations,
/// tableau, hand, each from the bottom up, then cards without a pile (cards of equal
/// rank by identifier).
fn sorted_render_list(world: &World) -> (r: Vec<RenderCard>)
    ensures
        forall|i: int| 0 <= i < r@.len() ==> render_of(world@, (#[trigger] r@[i]).entity.0) == Some(r@[i]),
        forall|id: usize| render_of(world@, id) is Some ==> exists|i: int| 0 <= i < r@.len() && (#[trigger] r@[i]).entity.0 == id,
        forall|a: int, b: int| 0 <= a < b < r@.len() ==> render_before(#[trigger] r@[a], #[trigger] r@[b]),
{
    let ghost w = world@;
    let card_entities = world.get_all_entities_with_component::<Card>();
    let n = card_entities.len();
    let mut r: Vec<RenderCard> = Vec::new();
    let mut i: usize = 0;
    while i < n
        invariant
            w == world@,
            n == card_entities@.len(),
            i <= n,
            card_entities@.no_duplicates(),
            forall|e: Entity| #[trigger] card_entities@.contains(e) <==> (component_of::<Card>(w, e.0) is Some
                && w.entities.contains(e.0)),
            forall|a: int, b: int| 0 <= a < b < r@.len() ==> render_before(#[trigger] r@[a], #[trigger] r@[b]),
            forall|x: RenderCard| #[trigger] r@.contains(x) ==> render_of(w, x.entity.0) == Some(x)
                && exists|j: int| 0 <= j < i && card_entities@[j] == x.entity,
            forall|j: int| 0 <= j < i && render_of(w, (#[trigger] card_entities@[j]).0) is Some
                ==> r@.contains(render_of(w, card_entities@[j].0).unwrap()),
        decreases n - i,
    {
        let entity = card_entities[i];
        assert(card_entities@.contains(entity));
        let pos_opt = world.get_component::<Position>(entity);
        let card_opt = world.get_component::<Card>(entity);
        if let (Some(pos), Some(card)) = (pos_opt, card_opt) {
            let is_dragging = world.get_component::<DraggingInfo>(entity).is_some();
            let stack_info = match world.get_component::<StackInfo>(entity) {
                Some(si) => Some(*si),
                None => None,
            };
            let item = RenderCard { entity, position: *pos, card: *card, is_dragging, stack_info };
            assert(render_of(w, entity.0) == Some(item));
            proof {
                assert forall|a: int| 0 <= a < r@.len() implies (#[trigger] r@[a]).entity != item.entity by {
                    assert(r@.contains(r@[a]));
                    let k = choose|k: int| 0 <= k < i && card_entities@[k] == r@[a].entity;
                    if r@[a].entity == item.entity {
                        assert(card_entities@[k] == card_entities@[i as int]);
                    }
                }
            }
            let ghost r0 = r@;
            insert_in_drawing_order(&mut r, item);
            proof {
                assert forall|x: RenderCard| #[trigger] r@.contains(x) implies render_of(w, x.entity.0) == Some(x)
                    && exists|j: int| 0 <= j < i + 1 && card_entities@[j] == x.entity by {
                    if x == item {
                        assert(card_entities@[i as int] == x.entity);
                    } else {
                        assert(r0.contains(x));
                        let k = choose|k: int| 0 <= k < i && card_entities@[k] == x.entity;
                    }
                }
                assert forall|j: int| 0 <= j < i + 1 && render_of(w, (#[trigger] card_entities@[j]).0) is Some
                    implies r@.contains(render_of(w, card_entities@[j].0).unwrap()) by {
                    if j < i {
                        assert(r0.contains(render_of(w, card_entities@[j].0).unwrap()));
                    }
                }
            }
        } else {
            proof {
                assert forall|x: RenderCard| #[trigger] r@.contains(x) implies render_of(w, x.entity.0) == Some(x)
                    && exists|j: int| 0 <= j < i + 1 && card_entities@[j] == x.entity by {
                    let k = choose|k: int| 0 <= k < i && card_entities@[k] == x.entity;
                }
            }
        }
        i = i + 1;
    }
    proof {
        assert forall|a: int| 0 <= a < r@.len() implies render_of(w, (#[trigger] r@[a]).entity.0) == Some(r@[a]) by {
            assert(r@.contains(r@[a]));
        }
        assert forall|id: usize| render_of(w, id) is Some implies exists|a: int| 0 <= a < r@.len() && (#[trigger] r@[a]).entity.0 == id by {
            assert(card_entities@.contains(Entity(id)));
            let k = choose|k: int| 0 <= k < n && card_entities@[k] == Entity(id);
            assert(render_of(w, card_entities@[k].0) is Some);
            let x = render_of(w, id).unwrap();
            assert(r@.contains(x));
            let a = choose|a: int| 0 <= a < r@.len() && r@[a] == x;
            assert(r@[a].entity.0 == id);
        }
    }
    r
}

/// The cards in the order they are drawn on the board: every card that is not being
/// dragged, piles in the order stock, waste, foundations, tableau, hand, each from the
/// bottom up, then cards without a pile (cards of equal rank by identifier); and last,
/// over all of them, the card being dragged (of several, the one that comes last in that
/// order; the others are not drawn).
pub fn card_render_list(world: &World) -> (r: Vec<RenderCard>)
    ensures
        forall|i: int| 0 <= i < r@.len() ==> render_of(world@, (#[trigger] r@[i]).entity.0) == Some(r@[i]),
        forall|i: int| 0 <= i < r@.len() - 1 ==> !(#[trigger] r@[i]).is_dragging,
        forall|a: int, b: int| 0 <= a < b < r@.len() && !r@[b].is_dragging ==> render_before(#[trigger] r@[a], #[trigger] r@[b]),
        forall|id: usize| (#[trigger] render_of(world@, id) matches Some(x) && !x.is_dragging)
            ==> exists|i: int| 0 <= i < r@.len() && (#[trigger] r@[i]).entity.0 == id,
        (exists|id: usize| #[trigger] render_of(world@, id) matches Some(x) && x.is_dragging)
            <==> (r@.len() > 0 && r@.last().is_dragging),
        r@.len() > 0 && r@.last().is_dragging ==> forall|id: usize| (#[trigger] render_of(world@, id) matches Some(x)
            && x.is_dragging && x.entity != r@.last().entity) ==> render_before(render_of(world@, id).unwrap(), r@.last()),
{
    let ghost w = world@;
    let sorted = sorted_render_list(world);
    let n = sorted.len();
    let mut r: Vec<RenderCard> = Vec::new();
    let mut dragged: Option<RenderCard> = None;
    let mut i: usize = 0;
    while i < n
        invariant
            n == sorted@.len(),
            i <= n,
            forall|k: int| 0 <= k < n ==> render_of(w, (#[trigger] sorted@[k]).entity.0) == Some(sorted@[k]),
            forall|a: int, b: int| 0 <= a < b < n ==> render_before(#[trigger] sorted@[a], #[trigger] sorted@[b]),
            forall|a: int| 0 <= a < r@.len() ==> !(#[trigger] r@[a]).is_dragging
                && exists|k: int| 0 <= k < i && sorted@[k] == r@[a],
            forall|a: int, b: int| 0 <= a < b < r@.len() ==> render_before(#[trigger] r@[a], #[trigger] r@[b]),
            forall|k: int| 0 <= k < i && !(#[trigger] sorted@[k]).is_dragging ==> r@.contains(sorted@[k]),
            match dragged {
                Some(d) => d.is_dragging && (exists|k: int| 0 <= k < i && sorted@[k] == d)
                    && forall|k: int| 0 <= k < i && (#[trigger] sorted@[k]).is_dragging && sorted@[k] != d
                        ==> render_before(sorted@[k], d),
                None => forall|k: int| 0 <= k < i ==> !(#[trigger] sorted@[k]).is_dragging,
            },
        decreases n - i,
    {
        let item = sorted[i];
        if item.is_dragging {
            proof {
                if let Some(d) = dragged {
                    let kd = choose|k: int| 0 <= k < i && sorted@[k] == d;
                    assert(render_before(sorted@[kd], sorted@[i as int]));
                    assert forall|k: int| 0 <= k < i + 1 && (#[trigger] sorted@[k]).is_dragging && sorted@[k] != item
                        implies render_before(sorted@[k], item) by {
                        assert(render_before(sorted@[k], sorted@[i as int]));
                    }
                }
            }
            dragged = Some(item);
        } else {
            let ghost r0 = r@;
            proof {
                assert forall|a: int| 0 <= a < r0.len() implies render_before(#[trigger] r0[a], item) by {
                    let k = choose|k: int| 0 <= k < i && sorted@[k] == r0[a];
                    assert(render_before(sorted@[k], sorted@[i as int]));
                }
            }
            r.push(item);
            proof {
                assert(r@ == r0.push(item));
                assert forall|a: int| 0 <= a < r@.len() implies !(#[trigger] r@[a]).is_dragging
                    && exists|k: int| 0 <= k < i + 1 && sorted@[k] == r@[a] by {
                    if a < r0.len() {
                        assert(r@[a] == r0[a]);
                        let k = choose|k: int| 0 <= k < i && sorted@[k] == r0[a];
                    } else {
                        assert(sorted@[i as int] == r@[a]);
                    }
                }
                assert forall|a: int, b: int| 0 <= a < b < r@.len() implies render_before(#[trigger] r@[a], #[trigger] r@[b]) by {
                    if b < r0.len() {
                        assert(r@[a] == r0[a] && r@[b] == r0[b]);
                    } else {
                        assert(r@[a] == r0[a]);
                    }
                }
                assert forall|k: int| 0 <= k < i + 1 && !(#[trigger] sorted@[k]).is_dragging implies r@.contains(sorted@[k]) by {
                    if k < i {
                        assert(r0.contains(sorted@[k]));
                        let a = choose|a: int| 0 <= a < r0.len() && r0[a] == sorted@[k];
                        assert(r@[a] == sorted@[k]);
                    } else {
                        assert(r@[r0.len() as int] == item);
                    }
                }
            }
        }
        i = i + 1;
    }
    let ghost r1 = r@;
    proof {
        assert forall|id: usize| (#[trigger] render_of(w, id) matches Some(x) && !x.is_dragging)
            implies exists|a: int| 0 <= a < r1.len() && (#[trigger] r1[a]).entity.0 == id by {
            let x = render_of(w, id).unwrap();
            let k = choose|k: int| 0 <= k < n && (#[trigger] sorted@[k]).entity.0 == id;
            assert(sorted@[k] == x);
            assert(r1.contains(x));
            let a = choose|a: int| 0 <= a < r1.len() && r1[a] == x;
            assert(r1[a].entity.0 == id);
        }
    }
    match dragged {
        Some(d) => {
            r.push(d);
            proof {
                assert(r@ == r1.push(d));
                let kd = choose|k: int| 0 <= k < n && sorted@[k] == d;
                assert(render_of(w, d.entity.0) == Some(d));
                assert forall|i: int| 0 <= i < r@.len() implies render_of(w, (#[trigger] r@[i]).entity.0) == Some(r@[i]) by {
                    if i < r1.len() {
                        assert(r@[i] == r1[i]);
                        let k = choose|k: int| 0 <= k < n && sorted@[k] == r1[i];
                    }
                }
                assert forall|i: int| 0 <= i < r@.len() - 1 implies !(#[trigger] r@[i]).is_dragging by {
                    assert(r@[i] == r1[i]);
                }
                assert forall|a: int, b: int| 0 <= a < b < r@.len() && !r@[b].is_dragging implies render_before(#[trigger] r@[a], #[trigger] r@[b]) by {
                    assert(r@[a] == r1[a] && r@[b] == r1[b]);
                }
                assert forall|id: usize| (#[trigger] render_of(w, id) matches Some(x) && !x.is_dragging)
                    implies exists|a: int| 0 <= a < r@.len() && (#[trigger] r@[a]).entity.0 == id by {
                    let a = choose|a: int| 0 <= a < r1.len() && (#[trigger] r1[a]).entity.0 == id;
                    assert(r@[a] == r1[a]);
                }
                assert(render_of(w, d.entity.0) matches Some(x) && x.is_dragging);
                assert forall|id: usize| (#[trigger] render_of(w, id) matches Some(x) && x.is_dragging && x.entity != d.entity)
                    implies render_before(render_of(w, id).unwrap(), d) by {
                    let x = render_of(w, id).unwrap();
                    let k = choose|k: int| 0 <= k < n && (#[trigger] sorted@[k]).entity.0 == id;
                    assert(sorted@[k] == x);
                }
            }
        },
        None => {
            proof {
                assert forall|id: usize| !(#[trigger] render_of(w, id) matches Some(x) && x.is_dragging) by {
                    if render_of(w, id) matches Some(x) && x.is_dragging {
                        let k = choose|k: int| 0 <= k < n && (#[trigger] sorted@[k]).entity.0 == id;
                        assert(sorted@[k] == render_of(w, id).unwrap());
                    }
                }
                assert forall|i: int| 0 <= i < r@.len() implies render_of(w, (#[trigger] r@[i]).entity.0) == Some(r@[i]) by {
                    let k = choose|k: int| 0 <= k < n && sorted@[k] == r@[i];
                }
                if r@.len() > 0 {
                    assert(!r@[r@.len() - 1].is_dragging);
                }
            }
        },
    }
    r
}

} // verus!
