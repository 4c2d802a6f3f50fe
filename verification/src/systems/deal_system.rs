//! Dealing a new game: seven tableau piles and the stock, from a shuffled deck.

use vstd::prelude::*;
use crate::components::{Card, Position, StackInfo, StackType};
use crate::entity::Entity;
use crate::ecs::world::{World, WorldView, component_of};
use crate::app::event_handler::stack_area_corner;
use crate::config::layout::{
    TABLEAU_START_X, TABLEAU_START_Y, TABLEAU_X_OFFSET, TABLEAU_Y_OFFSET_FACE_DOWN,
    TABLEAU_Y_OFFSET_FACE_UP, STOCK_POS_X, STOCK_POS_Y,
};
use crate::logic::deck::{create_standard_deck, shuffle_deck, standard_deck};

verus! {

broadcast use vstd::seq_lib::group_to_multiset_ensures;

/// Where tableau pile `t` (0 to 7) starts in the order of dealing: 0, 1, 3, 6, 10, 15, 21, 28.
pub open spec fn tableau_start(t: int) -> int {
    if t <= 0 {
        0
    } else if t == 1 {
        1
    } else if t == 2 {
        3
    } else if t == 3 {
        6
    } else if t == 4 {
        10
    } else if t == 5 {
        15
    } else if t == 6 {
        21
    } else {
        28
    }
}

/// The tableau pile that the `k`-th dealt card (below 28) goes to.
pub open spec fn tableau_column(k: int) -> int {
    if k < 1 {
        0
    } else if k < 3 {
        1
    } else if k < 6 {
        2
    } else if k < 10 {
        3
    } else if k < 15 {
        4
    } else if k < 21 {
        5
    } else {
        6
    }
}

/// The `k`-th card dealt from deck `d`: the first 28 fill the tableau piles, pile `t`
/// taking `t + 1` cards, its last one turned face up; the other cards go to the stock
/// as they are.
pub open spec fn dealt_card(d: Seq<Card>, k: int) -> Card {
    if k < 28 && k - tableau_start(tableau_column(k)) == tableau_column(k) {
        Card { is_face_up: true, ..d[k] }
    } else {
        d[k]
    }
}

/// Where the `k`-th dealt card lies: position `j` of tableau pile `t`, or the stock.
pub open spec fn dealt_stack(k: int) -> StackInfo {
    if k < 28 {
        let t = tableau_column(k);
        StackInfo { stack_type: StackType::Tableau(t as u8), position_in_stack: (k - tableau_start(t)) as u8 }
    } else {
        StackInfo { stack_type: StackType::Stock, position_in_stack: (k - 28) as u8 }
    }
}

/// Where the `k`-th dealt card is drawn: tableau cards step down by the face-down
/// offset for each card below them; stock cards are all at the stock.
pub open spec fn dealt_position(k: int) -> Position {
    if k < 28 {
        let t = tableau_column(k);
        Position {
            x: (TABLEAU_START_X + t * TABLEAU_X_OFFSET) as i32,
            y: (TABLEAU_START_Y + (k - tableau_start(t)) * TABLEAU_Y_OFFSET_FACE_DOWN) as i32,
        }
    } else {
        Position { x: STOCK_POS_X, y: STOCK_POS_Y }
    }
}

pub open spec fn dealt_cards(d: Seq<Card>, n0: nat, k: int) -> Map<usize, Card> {
    Map::new(|id: usize| n0 <= id < n0 + k, |id: usize| dealt_card(d, id - n0))
}

pub open spec fn dealt_stacks(n0: nat, k: int) -> Map<usize, StackInfo> {
    Map::new(|id: usize| n0 <= id < n0 + k, |id: usize| dealt_stack(id - n0))
}

pub open spec fn dealt_positions(n0: nat, k: int) -> Map<usize, Position> {
    Map::new(|id: usize| n0 <= id < n0 + k, |id: usize| dealt_position(id - n0))
}

/// The world after the first `k` cards of deck `d` are dealt onto fresh entities
/// (identifiers from the world's next one up), once every entity that held a card
/// has lost its card, stack info and position.
pub open spec fn deal_partial(w: WorldView, d: Seq<Card>, k: int) -> WorldView {
    let n0 = w.next_entity_id;
    let held = w.cards.unwrap().dom();
    WorldView {
        entities: w.entities.union(Set::new(|id: usize| n0 <= id < n0 + k)),
        next_entity_id: (n0 + k) as nat,
        cards: Some(dealt_cards(d, n0, k)),
        stack_infos: Some(w.stack_infos.unwrap().remove_keys(held).union_prefer_right(dealt_stacks(n0, k))),
        positions: Some(w.positions.unwrap().remove_keys(held).union_prefer_right(dealt_positions(n0, k))),
        ..w
    }
}

/// The world after a whole deal of deck `d`.
pub open spec fn deal_result(w: WorldView, d: Seq<Card>) -> WorldView {
    deal_partial(w, d, 52)
}

/// Deals a new game.
pub struct DealInitialCardsSystem;

impl Default for DealInitialCardsSystem {
    fn default() -> (s: Self) {
        DealInitialCardsSystem
    }
}

/// The identifiers of the first `n` entities of `s`.
pub open spec fn ids_of(s: Seq<Entity>, n: int) -> Set<usize> {
    Set::new(|id: usize| exists|j: int| 0 <= j < n && #[trigger] s[j].0 == id)
}

impl DealInitialCardsSystem {
    /// Shuffles a fresh deck and deals it: the cards, stack infos and positions held
    /// before are removed, then 28 new entities form the tableau and 24 the stock.
    pub fn execute(&self, world: &mut World)
        requires
            old(world).wf(),
            old(world)@.cards is Some,
            old(world)@.stack_infos is Some,
            old(world)@.positions is Some,
            old(world)@.next_entity_id + 52 < usize::MAX,
        ensures
            final(world).wf(),
            exists|d: Seq<Card>| d.to_multiset() == standard_deck().to_multiset()
                && final(world)@ == deal_result(old(world)@, d),
    {
        let mut deck_cards = create_standard_deck();
        shuffle_deck(&mut deck_cards);
        let ghost d = deck_cards@;
        proof {
            assert(d.to_multiset().len() == standard_deck().to_multiset().len());
            assert(d.len() == 52);
        }
        self.deal_deck(world, deck_cards);
        assert(d.to_multiset() == standard_deck().to_multiset() && world@ == deal_result(old(world)@, d));
    }

    /// Deals the deck `deck_cards`, in its order: the cards, stack infos and positions
    /// held before are removed; then fresh entities (identifiers from the world's next
    /// one up) take the cards, the first 28 forming the tableau (pile `t` takes `t + 1`
    /// cards, its last one turned face up, drawn a face-down offset apart) and the rest
    /// the stock, in order.
    pub fn deal_deck(&self, world: &mut World, deck_cards: Vec<Card>)
        requires
            old(world).wf(),
            old(world)@.cards is Some,
            old(world)@.stack_infos is Some,
            old(world)@.positions is Some,
            28 <= deck_cards@.len(),
            old(world)@.next_entity_id + deck_cards@.len() < usize::MAX,
        ensures
            final(world).wf(),
            final(world)@ == deal_partial(old(world)@, deck_cards@, deck_cards@.len() as int),
    {
        let ghost w0 = world@;
        let ghost d = deck_cards@;
        let n = deck_cards.len();
        let existing_card_entities = world.get_all_entities_with_component::<Card>();
        let ne = existing_card_entities.len();
        let mut i: usize = 0;
        while i < ne
            invariant
                ne == existing_card_entities@.len(),
                i <= ne,
                world.wf(),
                w0.wf(),
                w0.cards is Some,
                w0.stack_infos is Some,
                w0.positions is Some,
                forall|e: Entity| #[trigger] existing_card_entities@.contains(e) <==> (w0.cards.unwrap().contains_key(e.0)
                    && w0.entities.contains(e.0)),
                world@ == (WorldView {
                    cards: Some(w0.cards.unwrap().remove_keys(ids_of(existing_card_entities@, i as int))),
                    stack_infos: Some(w0.stack_infos.unwrap().remove_keys(ids_of(existing_card_entities@, i as int))),
                    positions: Some(w0.positions.unwrap().remove_keys(ids_of(existing_card_entities@, i as int))),
                    ..w0
                }),
            decreases ne - i,
        {
            let entity = existing_card_entities[i];
            world.remove_component::<Card>(entity);
            world.remove_component::<StackInfo>(entity);
            world.remove_component::<Position>(entity);
            proof {
                let s0 = ids_of(existing_card_entities@, i as int);
                let s1 = ids_of(existing_card_entities@, i + 1);
                assert(s1 =~= s0.insert(entity.0)) by {
                    assert forall|id: usize| s1.contains(id) implies s0.insert(entity.0).contains(id) by {
                        let j = choose|j: int| 0 <= j < i + 1 && #[trigger] existing_card_entities@[j].0 == id;
                        if j < i {
                            assert(existing_card_entities@[j].0 == id);
                        }
                    }
                    assert forall|id: usize| s0.insert(entity.0).contains(id) implies s1.contains(id) by {
                        if id == entity.0 {
                            assert(existing_card_entities@[i as int].0 == id);
                        } else {
                            let j = choose|j: int| 0 <= j < i && #[trigger] existing_card_entities@[j].0 == id;
                            assert(existing_card_entities@[j].0 == id);
                        }
                    }
                }
                assert(w0.cards.unwrap().remove_keys(s1) =~= w0.cards.unwrap().remove_keys(s0).remove(entity.0));
                assert(w0.stack_infos.unwrap().remove_keys(s1) =~= w0.stack_infos.unwrap().remove_keys(s0).remove(entity.0));
                assert(w0.positions.unwrap().remove_keys(s1) =~= w0.positions.unwrap().remove_keys(s0).remove(entity.0));
            }
            i = i + 1;
        }
        proof {
            let held = w0.cards.unwrap().dom();
            let s = ids_of(existing_card_entities@, ne as int);
            assert(s =~= held) by {
                assert forall|id: usize| s.contains(id) implies held.contains(id) by {
                    let j = choose|j: int| 0 <= j < ne && #[trigger] existing_card_entities@[j].0 == id;
                    assert(existing_card_entities@.contains(existing_card_entities@[j]));
                }
                assert forall|id: usize| held.contains(id) implies s.contains(id) by {
                    assert(w0.entities.contains(id));
                    assert(existing_card_entities@.contains(Entity(id)));
                    let j = choose|j: int| 0 <= j < ne && existing_card_entities@[j] == Entity(id);
                    assert(existing_card_entities@[j].0 == id);
                }
            }
            assert(w0.cards.unwrap().remove_keys(held) =~= dealt_cards(d, w0.next_entity_id, 0));
            assert(w0.stack_infos.unwrap().remove_keys(held) =~= w0.stack_infos.unwrap().remove_keys(held).union_prefer_right(dealt_stacks(w0.next_entity_id, 0)));
            assert(w0.positions.unwrap().remove_keys(held) =~= w0.positions.unwrap().remove_keys(held).union_prefer_right(dealt_positions(w0.next_entity_id, 0)));
            assert(w0.entities =~= w0.entities.union(Set::new(|id: usize| w0.next_entity_id <= id < w0.next_entity_id + 0)));
            assert(world@ == deal_partial(w0, d, 0));
        }
        let mut k: usize = 0;
        let mut tableau_index: u8 = 0;
        while tableau_index < 7
            invariant
                tableau_index <= 7,
                k == tableau_start(tableau_index as int),
                deck_cards@ == d,
                n == d.len(),
                28 <= n,
                w0.wf(),
                w0.cards is Some,
                w0.stack_infos is Some,
                w0.positions is Some,
                w0.next_entity_id + n < usize::MAX,
                world.wf(),
                world@ == deal_partial(w0, d, k as int),
            decreases 7 - tableau_index,
        {
            let mut current_y_offset: i32 = 0;
            let mut card_in_tableau_index: u8 = 0;
            while card_in_tableau_index < tableau_index + 1
                invariant
                    tableau_index < 7,
                    card_in_tableau_index <= tableau_index + 1,
                    k == tableau_start(tableau_index as int) + card_in_tableau_index,
                    card_in_tableau_index <= tableau_index ==> current_y_offset == card_in_tableau_index * TABLEAU_Y_OFFSET_FACE_DOWN,
                    deck_cards@ == d,
                    n == d.len(),
                    28 <= n,
                    w0.wf(),
                    w0.cards is Some,
                    w0.stack_infos is Some,
                    w0.positions is Some,
                    w0.next_entity_id + n < usize::MAX,
                    world.wf(),
                    world@ == deal_partial(w0, d, k as int),
                decreases tableau_index + 1 - card_in_tableau_index,
            {
                let mut card: Card = deck_cards[k];
                let ghost wk = world@;
                let entity: Entity = world.create_entity();
                let is_top_card_in_pile = card_in_tableau_index == tableau_index;
                if is_top_card_in_pile {
                    card.is_face_up = true;
                }
                let pos_x = TABLEAU_START_X + (tableau_index as i32) * TABLEAU_X_OFFSET;
                let pos_y = TABLEAU_START_Y + current_y_offset;
                current_y_offset = current_y_offset + if is_top_card_in_pile {
                    TABLEAU_Y_OFFSET_FACE_UP
                } else {
                    TABLEAU_Y_OFFSET_FACE_DOWN
                };
                let position_component = Position { x: pos_x, y: pos_y };
                world.add_component(entity, card);
                world.add_component(entity, StackInfo {
                    stack_type: StackType::Tableau(tableau_index),
                    position_in_stack: card_in_tableau_index,
                });
                world.add_component(entity, position_component);
                proof {
                    let n0 = w0.next_entity_id;
                    assert(entity.0 == n0 + k);
                    assert(tableau_column(k as int) == tableau_index as int);
                    assert(dealt_card(d, k as int) == card);
                    assert(dealt_stack(k as int) == StackInfo {
                        stack_type: StackType::Tableau(tableau_index),
                        position_in_stack: card_in_tableau_index,
                    });
                    assert(dealt_position(k as int) == position_component);
                    lemma_deal_step(w0, d, k as int, wk, world@, entity.0, card, StackInfo {
                        stack_type: StackType::Tableau(tableau_index),
                        position_in_stack: card_in_tableau_index,
                    }, position_component);
                }
                k = k + 1;
                card_in_tableau_index = card_in_tableau_index + 1;
            }
            tableau_index = tableau_index + 1;
        }
        let mut index_in_stock: usize = 0;
        while k < n
            invariant
                28 <= k <= n,
                index_in_stock == k - 28,
                deck_cards@ == d,
                n == d.len(),
                28 <= n,
                w0.wf(),
                w0.cards is Some,
                w0.stack_infos is Some,
                w0.positions is Some,
                w0.next_entity_id + n < usize::MAX,
                world.wf(),
                world@ == deal_partial(w0, d, k as int),
            decreases n - k,
        {
            let card: Card = deck_cards[k];
            let ghost wk = world@;
            let entity = world.create_entity();
            let position_component = Position { x: STOCK_POS_X, y: STOCK_POS_Y };
            world.add_component(entity, card);
            world.add_component(entity, StackInfo {
                stack_type: StackType::Stock,
                position_in_stack: index_in_stock as u8,
            });
            world.add_component(entity, position_component);
            proof {
                assert(entity.0 == w0.next_entity_id + k);
                assert(dealt_card(d, k as int) == card);
                lemma_deal_step(w0, d, k as int, wk, world@, entity.0, card, StackInfo {
                    stack_type: StackType::Stock,
                    position_in_stack: index_in_stock as u8,
                }, position_component);
            }
            k = k + 1;
            index_in_stock = index_in_stock + 1;
        }
    }
}

/// One step of the deal: a fresh entity receives the `k`-th dealt card, stack info and position.
proof fn lemma_deal_step(
    w0: WorldView,
    d: Seq<Card>,
    k: int,
    before: WorldView,
    after: WorldView,
    id: usize,
    c: Card,
    si: StackInfo,
    p: Position,
)
    requires
        0 <= k,
        w0.cards is Some,
        w0.stack_infos is Some,
        w0.positions is Some,
        before == deal_partial(w0, d, k),
        id == w0.next_entity_id + k,
        c == dealt_card(d, k),
        si == dealt_stack(k),
        p == dealt_position(k),
        after == (WorldView {
            positions: Some(before.positions.unwrap().insert(id, p)),
            stack_infos: Some(before.stack_infos.unwrap().insert(id, si)),
            cards: Some(before.cards.unwrap().insert(id, c)),
            ..before.with_entity(id)
        }),
    ensures
        after == deal_partial(w0, d, k + 1),
{
    let n0 = w0.next_entity_id;
    let held = w0.cards.unwrap().dom();
    let e = deal_partial(w0, d, k + 1);
    assert(after.entities =~= e.entities);
    assert(after.cards.unwrap() =~= e.cards.unwrap());
    assert(after.stack_infos.unwrap() =~= e.stack_infos.unwrap());
    assert(after.positions.unwrap() =~= e.positions.unwrap());
}

/// The layout a deal makes: no two dealt cards share a place; tableau pile `t` (0 to 6)
/// gets `t + 1` cards, at positions 0 to `t`; the stock gets the other 24, at positions
/// 0 to 23; and, dealing a face-down deck, exactly the last card of each tableau pile is
/// face up.
pub proof fn lemma_deal_layout(d: Seq<Card>)
    requires
        d.len() == 52,
        forall|k: int| 0 <= k < 52 ==> !(#[trigger] d[k]).is_face_up,
    ensures
        forall|k1: int, k2: int| 0 <= k1 < k2 < 52 ==> dealt_stack(k1) != dealt_stack(k2),
        forall|t: int, j: int| 0 <= j <= t < 7 ==> dealt_stack(#[trigger] (tableau_start(t) + j)) == (StackInfo {
            stack_type: StackType::Tableau(t as u8),
            position_in_stack: j as u8,
        }),
        forall|j: int| 0 <= j < 24 ==> dealt_stack(#[trigger] (28 + j)) == (StackInfo {
            stack_type: StackType::Stock,
            position_in_stack: j as u8,
        }),
        forall|k: int| 0 <= k < 52 ==> match #[trigger] dealt_stack(k).stack_type {
            StackType::Tableau(t) => t < 7 && dealt_stack(k).position_in_stack <= t,
            StackType::Stock => dealt_stack(k).position_in_stack < 24,
            _ => false,
        },
        forall|k: int| 0 <= k < 52 ==> ((#[trigger] dealt_card(d, k)).is_face_up <==> (dealt_stack(k).stack_type
            matches StackType::Tableau(t) && dealt_stack(k).position_in_stack == t)),
{
    assert forall|k1: int, k2: int| 0 <= k1 < k2 < 52 implies dealt_stack(k1) != dealt_stack(k2) by {
        if k1 < 28 && k2 < 28 && tableau_column(k1) == tableau_column(k2) {
            assert(k1 - tableau_start(tableau_column(k1)) != k2 - tableau_start(tableau_column(k2)));
        }
    }
    assert forall|t: int, j: int| 0 <= j <= t < 7 implies dealt_stack(#[trigger] (tableau_start(t) + j)) == (StackInfo {
        stack_type: StackType::Tableau(t as u8),
        position_in_stack: j as u8,
    }) by {
        assert(tableau_column(tableau_start(t) + j) == t);
    }
}

/// Tableau pile `t` starts after the `t * (t + 1) / 2` cards of the piles before it.
proof fn lemma_tableau_start_closed_form(t: int)
    requires
        0 <= t < 7,
    ensures
        tableau_start(t) == t * (t + 1) / 2,
{
    if t == 0 {
        assert(t * (t + 1) == 0) by (nonlinear_arith)
            requires
                t == 0,
        ;
    } else if t == 1 {
        assert(t * (t + 1) == 2) by (nonlinear_arith)
            requires
                t == 1,
        ;
    } else if t == 2 {
        assert(t * (t + 1) == 6) by (nonlinear_arith)
            requires
                t == 2,
        ;
    } else if t == 3 {
        assert(t * (t + 1) == 12) by (nonlinear_arith)
            requires
                t == 3,
        ;
    } else if t == 4 {
        assert(t * (t + 1) == 20) by (nonlinear_arith)
            requires
                t == 4,
        ;
    } else if t == 5 {
        assert(t * (t + 1) == 30) by (nonlinear_arith)
            requires
                t == 5,
        ;
    } else if t == 6 {
        assert(t * (t + 1) == 42) by (nonlinear_arith)
            requires
                t == 6,
        ;
    }
}

/// Every dealt card is drawn in the place of the pile it is dealt to: a card at place
/// `j` of tableau pile `i` lies in that pile's column, at the top of the pile's area
/// pushed down by `j` face-down offsets; a stock card lies on the stock's area. The deck
/// is dealt pile by pile: the card at place `j` of tableau pile `i` is the
/// `i * (i + 1) / 2 + j`-th of the deck, and the `m`-th card of the stock (below 256)
/// the `28 + m`-th.
pub proof fn lemma_dealt_cards_lie_on_their_piles(w: WorldView, d: Seq<Card>, n: int, id: usize)
    requires
        w.cards is Some,
        w.stack_infos is Some,
        w.positions is Some,
        0 <= n,
        w.next_entity_id <= id < w.next_entity_id + n,
    ensures
        ({
            let r = deal_partial(w, d, n);
            let si = component_of::<StackInfo>(r, id).unwrap();
            let p = component_of::<Position>(r, id).unwrap();
            let (ax, ay) = stack_area_corner(si.stack_type);
            &&& component_of::<StackInfo>(r, id) is Some
            &&& component_of::<Position>(r, id) is Some
            &&& p.x == ax
            &&& match si.stack_type {
                StackType::Tableau(i) => i < 7 && si.position_in_stack <= i
                    && p.y == ay + si.position_in_stack * TABLEAU_Y_OFFSET_FACE_DOWN
                    && i * (i + 1) / 2 + si.position_in_stack == id - w.next_entity_id,
                StackType::Stock => p.y == ay
                    && (id - w.next_entity_id < 284 ==> 28 + si.position_in_stack == id - w.next_entity_id),
                _ => false,
            }
        }),
{
    let k = id - w.next_entity_id;
    let r = deal_partial(w, d, n);
    assert(component_of::<StackInfo>(r, id) == Some(dealt_stack(k)));
    assert(component_of::<Position>(r, id) == Some(dealt_position(k)));
    if k < 28 {
        let t = tableau_column(k);
        assert(0 <= t < 7);
        assert(tableau_start(t) <= k < tableau_start(t) + t + 1);
        lemma_tableau_start_closed_form(t);
    }
}

} // verus!
