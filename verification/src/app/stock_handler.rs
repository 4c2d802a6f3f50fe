//! Dealing from the stock to the waste, and turning the waste back into the stock.

use vstd::prelude::*;
use crate::components::{Card, Position, StackInfo, StackType};
use crate::entity::Entity;
use crate::ecs::world::{World, WorldView, component_of, in_stack};
use crate::config::layout::{STOCK_POS_X, STOCK_POS_Y, WASTE_POS_X, WASTE_POS_Y};
use crate::logic::rules::stock_waste;
use crate::logic::rules::common::{is_member, is_top, top_of, find_top_in, pos_in_stack, stack_le, lemma_top_of};
use crate::logic::piles::{sorted_pile, sorted_pile_of, is_sorted_pile, stack_lt, lemma_sorted_pile};
use crate::app::layout_calculator::calculate_card_position;

verus! {

/// The members of pile `st` (holding a card too, when `need_card`).
pub open spec fn pile_set(w: WorldView, st: StackType, need_card: bool) -> Set<usize> {
    Set::new(|id: usize| is_member(w, st, need_card, id))
}

/// `m` with the entry of `id` set to `v`, if `m` is there and holds `id`.
pub open spec fn update_entry<T>(m: Option<Map<usize, T>>, id: usize, v: T) -> Option<Map<usize, T>> {
    match m {
        Some(mm) => if mm.contains_key(id) { Some(mm.insert(id, v)) } else { m },
        None => m,
    }
}

/// The card of `id` turned face up (`up`) or down, if it holds one.
pub open spec fn turn_card(cards: Option<Map<usize, Card>>, id: usize, up: bool) -> Option<Map<usize, Card>> {
    match cards {
        Some(m) => if m.contains_key(id) { Some(m.insert(id, Card { is_face_up: up, ..m[id] })) } else { cards },
        None => cards,
    }
}

/// The world after the top card of the stock goes to the top of the waste, face up.
pub open spec fn stock_to_waste(w: WorldView, need_card: bool) -> WorldView {
    let t = top_of(w, StackType::Stock, need_card).unwrap();
    let p = pile_set(w, StackType::Waste, need_card).len() as u8;
    WorldView {
        stack_infos: update_entry(w.stack_infos, t, StackInfo { stack_type: StackType::Waste, position_in_stack: p }),
        positions: update_entry(w.positions, t, Position { x: WASTE_POS_X, y: WASTE_POS_Y }),
        cards: turn_card(w.cards, t, true),
        ..w
    }
}

/// The world after the first `k` cards of `s` go to the stock, the `j`-th at position
/// `j`, face down.
pub open spec fn waste_to_stock(w: WorldView, s: Seq<usize>, k: int) -> WorldView
    decreases k,
{
    if k <= 0 {
        w
    } else {
        let r = waste_to_stock(w, s, k - 1);
        let id = s[k - 1];
        WorldView {
            stack_infos: update_entry(r.stack_infos, id, StackInfo { stack_type: StackType::Stock, position_in_stack: (k - 1) as u8 }),
            positions: update_entry(r.positions, id, Position { x: STOCK_POS_X, y: STOCK_POS_Y }),
            cards: turn_card(r.cards, id, false),
            ..r
        }
    }
}

/// Every card of the waste, bottom first, goes to the stock at the same place in order, face down.
pub open spec fn reset_result(w: WorldView, need_card: bool) -> WorldView {
    let s = sorted_pile(w, StackType::Waste, need_card);
    waste_to_stock(w, s, s.len() as int)
}

/// The members of pile `stack_type` among `candidates` (which hold all of them), each
/// with its stack info, each once.
pub fn pile_entries(world: &World, candidates: &Vec<Entity>, stack_type: StackType, need_card: bool) -> (r: Vec<(Entity, StackInfo)>)
    requires
        world.wf(),
        candidates@.no_duplicates(),
        forall|id: usize| is_member(world@, stack_type, need_card, id) ==> candidates@.contains(Entity(id)),
    ensures
        r@.len() == pile_set(world@, stack_type, need_card).len(),
        forall|i: int| 0 <= i < r@.len() ==> is_member(world@, stack_type, need_card, (#[trigger] r@[i]).0.0)
            && component_of::<StackInfo>(world@, r@[i].0.0) == Some(r@[i].1),
        forall|id: usize| is_member(world@, stack_type, need_card, id) ==> exists|i: int| 0 <= i < r@.len() && (#[trigger] r@[i]).0.0 == id,
{
    let ghost w = world@;
    let all = candidates;
    let mut r: Vec<(Entity, StackInfo)> = Vec::new();
    let n = all.len();
    let mut i: usize = 0;
    while i < n
        invariant
            w == world@,
            n == all@.len(),
            i <= n,
            all@.no_duplicates(),
            forall|id: usize| is_member(w, stack_type, need_card, id) ==> all@.contains(Entity(id)),
            forall|a: int| 0 <= a < r@.len() ==> is_member(w, stack_type, need_card, (#[trigger] r@[a]).0.0)
                && component_of::<StackInfo>(w, r@[a].0.0) == Some(r@[a].1),
            forall|a: int| 0 <= a < r@.len() ==> exists|j: int| 0 <= j < i && all@[j] == (#[trigger] r@[a]).0,
            forall|j: int| 0 <= j < i && is_member(w, stack_type, need_card, (#[trigger] all@[j]).0)
                ==> exists|a: int| 0 <= a < r@.len() && r@[a].0 == all@[j],
            forall|a: int, b: int| 0 <= a < b < r@.len() ==> (#[trigger] r@[a]).0 != (#[trigger] r@[b]).0,
        decreases n - i,
    {
        let e = all[i];
        let alive = world.is_entity_alive(e);
        let has_card = if need_card { world.get_component::<Card>(e).is_some() } else { true };
        if let Some(si) = world.get_component::<StackInfo>(e) {
            if alive && has_card && si.stack_type == stack_type {
                let ghost r0 = r@;
                proof {
                    assert forall|a: int| 0 <= a < r0.len() implies r0[a].0 != e by {
                        let j = choose|j: int| 0 <= j < i && all@[j] == r0[a].0;
                        assert(all@[i as int] == e);
                    }
                }
                r.push((e, *si));
                proof {
                    assert forall|a: int| 0 <= a < r@.len() implies exists|j: int| 0 <= j < i + 1 && all@[j] == (#[trigger] r@[a]).0 by {
                        if a < r0.len() {
                            assert(r@[a] == r0[a]);
                            let j = choose|j: int| 0 <= j < i && all@[j] == r0[a].0;
                        } else {
                            assert(all@[i as int] == r@[a].0);
                        }
                    }
                    assert forall|j: int| 0 <= j < i + 1 && is_member(w, stack_type, need_card, (#[trigger] all@[j]).0)
                        implies exists|a: int| 0 <= a < r@.len() && r@[a].0 == all@[j] by {
                        if j == i {
                            assert(r@[r0.len() as int].0 == all@[j]);
                        } else {
                            let a = choose|a: int| 0 <= a < r0.len() && r0[a].0 == all@[j];
                            assert(r@[a] == r0[a]);
                        }
                    }
                    assert forall|a: int, b: int| 0 <= a < b < r@.len() implies (#[trigger] r@[a]).0 != (#[trigger] r@[b]).0 by {
                        if b == r0.len() {
                            assert(r@[a] == r0[a]);
                        } else {
                            assert(r@[a] == r0[a] && r@[b] == r0[b]);
                        }
                    }
                }
            }
        }
        i = i + 1;
    }
    proof {
        let ids = r@.map_values(|p: (Entity, StackInfo)| p.0.0);
        assert(ids.no_duplicates()) by {
            assert forall|a: int, b: int| 0 <= a < ids.len() && 0 <= b < ids.len() && a != b implies ids[a] != ids[b] by {
                if a < b {
                    assert(r@[a].0 != r@[b].0);
                } else {
                    assert(r@[b].0 != r@[a].0);
                }
            }
        }
        assert(ids.to_set() =~= pile_set(w, stack_type, need_card)) by {
            assert forall|id: usize| ids.to_set().contains(id) implies pile_set(w, stack_type, need_card).contains(id) by {
                let a = choose|a: int| 0 <= a < ids.len() && ids[a] == id;
                assert(is_member(w, stack_type, need_card, r@[a].0.0));
            }
            assert forall|id: usize| pile_set(w, stack_type, need_card).contains(id) implies ids.to_set().contains(id) by {
                assert(all@.contains(Entity(id)));
                let j = choose|j: int| 0 <= j < n && all@[j] == Entity(id);
                assert(is_member(w, stack_type, need_card, all@[j].0));
                let a = choose|a: int| 0 <= a < r@.len() && r@[a].0 == all@[j];
                assert(ids[a] == id);
            }
        }
        ids.unique_seq_to_set();
        assert forall|id: usize| is_member(w, stack_type, need_card, id) implies exists|i: int| 0 <= i < r@.len() && (#[trigger] r@[i]).0.0 == id by {
            assert(pile_set(w, stack_type, need_card).contains(id));
            assert(ids.to_set().contains(id));
            let a = choose|a: int| 0 <= a < ids.len() && ids[a] == id;
            assert(r@[a].0.0 == id);
        }
    }
    r
}

/// The card entities of pile `stack_type`, each with its stack info, each once.
pub fn find_cards_in_stack(world: &World, stack_type: StackType) -> (r: Vec<(Entity, StackInfo)>)
    requires
        world.wf(),
    ensures
        r@.len() == pile_set(world@, stack_type, true).len(),
        forall|i: int| 0 <= i < r@.len() ==> is_member(world@, stack_type, true, (#[trigger] r@[i]).0.0)
            && component_of::<StackInfo>(world@, r@[i].0.0) == Some(r@[i].1),
        forall|id: usize| is_member(world@, stack_type, true, id) ==> exists|i: int| 0 <= i < r@.len() && (#[trigger] r@[i]).0.0 == id,
{
    let cards = world.get_all_entities_with_component::<Card>();
    proof {
        assert forall|id: usize| is_member(world@, stack_type, true, id) implies cards@.contains(Entity(id)) by {}
    }
    pile_entries(world, &cards, stack_type, true)
}

/// The entities that may belong to a pile: card holders when `need_card`, else stack-info holders.
fn pile_candidates(world: &World, need_card: bool) -> (r: Vec<Entity>)
    requires
        world.wf(),
    ensures
        r@.no_duplicates(),
        forall|st: StackType, id: usize| is_member(world@, st, need_card, id) ==> r@.contains(Entity(id)),
{
    if need_card {
        world.get_all_entities_with_component::<Card>()
    } else {
        world.get_all_entities_with_component::<StackInfo>()
    }
}

/// Moves the top card of the stock (among card holders when `need_card`) to the top
/// of the waste, face up; returns false, changing nothing, when the stock is empty.
pub fn move_stock_top_to_waste(world: &mut World, need_card: bool) -> (b: bool)
    requires
        old(world).wf(),
    ensures
        b == (top_of(old(world)@, StackType::Stock, need_card) is Some),
        final(world)@ == (if b { stock_to_waste(old(world)@, need_card) } else { old(world)@ }),
        final(world).wf(),
{
    let ghost w0 = world@;
    let candidates = pile_candidates(world, need_card);
    let top = find_top_in(world, &candidates, StackType::Stock, need_card);
    let top_card_entity = match top {
        Some(e) => e,
        None => {
            return false;
        },
    };
    let waste_cards = pile_entries(world, &candidates, StackType::Waste, need_card);
    let new_pos_in_waste = waste_cards.len() as u8;
    let new_position = calculate_card_position(StackType::Waste, new_pos_in_waste, world);
    if let Some(stack_info) = world.get_component_mut::<StackInfo>(top_card_entity) {
        stack_info.stack_type = StackType::Waste;
        stack_info.position_in_stack = new_pos_in_waste;
    }
    let ghost w1 = world@;
    if let Some(position) = world.get_component_mut::<Position>(top_card_entity) {
        *position = new_position;
    }
    let ghost w2 = world@;
    if let Some(card) = world.get_component_mut::<Card>(top_card_entity) {
        card.is_face_up = true;
    }
    proof {
        let e = stock_to_waste(w0, need_card);
        assert(world@.stack_infos == e.stack_infos);
        assert(world@.positions == e.positions);
        assert(world@.cards == e.cards);
        assert(world@ =~= e);
    }
    true
}

/// Moves every card of the waste (among card holders when `need_card`), bottom first,
/// to the stock at the same place in order, face down.
pub fn move_waste_to_stock(world: &mut World, need_card: bool)
    requires
        old(world).wf(),
    ensures
        final(world)@ == reset_result(old(world)@, need_card),
        final(world).wf(),
{
    let ghost w0 = world@;
    let candidates = pile_candidates(world, need_card);
    let sorted_waste_cards = sorted_pile_of(world, &candidates, StackType::Waste, need_card);
    let ghost s = sorted_pile(w0, StackType::Waste, need_card);
    let n = sorted_waste_cards.len();
    let mut i: usize = 0;
    while i < n
        invariant
            n == sorted_waste_cards@.len(),
            n == s.len(),
            forall|k: int| 0 <= k < n ==> #[trigger] sorted_waste_cards@[k].0 == s[k],
            i <= n,
            world.wf(),
            world@ == waste_to_stock(w0, s, i as int),
        decreases n - i,
    {
        let entity = sorted_waste_cards[i];
        let new_pos_in_stock = i as u8;
        let new_position = calculate_card_position(StackType::Stock, new_pos_in_stock, world);
        if let Some(stack_info) = world.get_component_mut::<StackInfo>(entity) {
            stack_info.stack_type = StackType::Stock;
            stack_info.position_in_stack = new_pos_in_stock;
        }
        if let Some(position) = world.get_component_mut::<Position>(entity) {
            *position = new_position;
        }
        if let Some(card) = world.get_component_mut::<Card>(entity) {
            card.is_face_up = false;
        }
        proof {
            let e = waste_to_stock(w0, s, i + 1);
            assert(world@.stack_infos == e.stack_infos);
            assert(world@.positions == e.positions);
            assert(world@.cards == e.cards);
            assert(world@ =~= e);
        }
        i = i + 1;
    }
}

/// Deals the top card of the stock onto the waste, face up; false when the stock is empty.
pub fn deal_one_card_from_stock(world: &mut World) -> (b: bool)
    requires
        old(world).wf(),
    ensures
        b == (pile_set(old(world)@, StackType::Stock, true).len() > 0),
        final(world)@ == (if b { stock_to_waste(old(world)@, true) } else { old(world)@ }),
        final(world).wf(),
{
    let stock_cards = find_cards_in_stack(world, StackType::Stock);
    if stock_cards.len() == 0 {
        return false;
    }
    if !stock_waste::can_deal_from_stock(false) {
        return false;
    }
    let ghost w0 = world@;
    let r = move_stock_top_to_waste(world, true);
    proof {
        let a = stock_cards@[0].0.0;
        assert(is_member(w0, StackType::Stock, true, a));
        if !r {
            assert(top_of(w0, StackType::Stock, true) is None);
            lemma_member_has_top(w0, StackType::Stock, true, a);
        }
    }
    r
}

/// Turns the waste back into the stock, in order and face down, when the stock is
/// empty and the waste is not; returns whether it did.
pub fn reset_waste_to_stock(world: &mut World) -> (b: bool)
    requires
        old(world).wf(),
    ensures
        b == (pile_set(old(world)@, StackType::Stock, true).len() == 0
            && pile_set(old(world)@, StackType::Waste, true).len() > 0),
        final(world)@ == (if b { reset_result(old(world)@, true) } else { old(world)@ }),
        final(world).wf(),
{
    let stock_cards = find_cards_in_stack(world, StackType::Stock);
    let waste_cards = find_cards_in_stack(world, StackType::Waste);
    if !stock_waste::can_reset_stock_from_waste(stock_cards.len() == 0, waste_cards.len() == 0) {
        return false;
    }
    move_waste_to_stock(world, true);
    true
}

/// A click on the stock: the stock's top card goes to the waste, or, with the stock
/// empty, the waste goes back to the stock (stack-info holders count as cards here).
pub fn handle_stock_click(world: &mut World)
    requires
        old(world).wf(),
    ensures
        final(world)@ == (if top_of(old(world)@, StackType::Stock, false) is Some {
            stock_to_waste(old(world)@, false)
        } else if pile_set(old(world)@, StackType::Waste, false).len() > 0 {
            reset_result(old(world)@, false)
        } else {
            old(world)@
        }),
        final(world).wf(),
{
    if move_stock_top_to_waste(world, false) {
        return;
    }
    let candidates = pile_candidates(world, false);
    let waste_cards = pile_entries(world, &candidates, StackType::Waste, false);
    if waste_cards.len() > 0 {
        move_waste_to_stock(world, false);
    }
}

/// A pile with a member has a top.
pub proof fn lemma_member_has_top(w: WorldView, st: StackType, need_card: bool, a: usize)
    requires
        w.wf(),
        is_member(w, st, need_card, a),
    ensures
        top_of(w, st, need_card) is Some,
{
    let members = pile_set(w, st, need_card);
    assert(members.subset_of(w.entities));
    vstd::set_lib::lemma_len_subset(members, w.entities);
    assert(members.finite());
    assert(members.contains(a));
    vstd::set_lib::lemma_set_empty_equivalency_len(members);
    lemma_finite_pile_has_top(w, st, need_card, members);
}

/// Any finite, non-empty set of members of a pile holds a member lying above all of them.
proof fn lemma_finite_pile_has_top(w: WorldView, st: StackType, need_card: bool, members: Set<usize>)
    requires
        members.finite(),
        members.len() > 0,
        members == pile_set(w, st, need_card),
    ensures
        top_of(w, st, need_card) is Some,
{
    let m = max_member(w, members);
    assert forall|j: usize| #[trigger] is_member(w, st, need_card, j) implies crate::logic::rules::common::stack_le(w, j, m) by {
        assert(members.contains(j));
    }
    assert(crate::logic::rules::common::is_top(w, st, need_card, m));
}

/// The member of `s` that lies above all others of `s`.
proof fn max_member(w: WorldView, s: Set<usize>) -> (m: usize)
    requires
        s.finite(),
        s.len() > 0,
    ensures
        s.contains(m),
        forall|j: usize| s.contains(j) ==> crate::logic::rules::common::stack_le(w, j, m),
    decreases s.len(),
{
    let a = s.choose();
    if s.len() == 1 {
        assert(s.remove(a).len() == 0);
        assert forall|j: usize| s.contains(j) implies crate::logic::rules::common::stack_le(w, j, a) by {
            if j != a {
                assert(s.remove(a).contains(j));
            }
        }
        a
    } else {
        let m0 = max_member(w, s.remove(a));
        if crate::logic::rules::common::stack_le(w, a, m0) {
            m0
        } else {
            a
        }
    }
}

/// The members of `s`, listed from the bottom up.
proof fn sorted_seq_of(w: WorldView, s: Set<usize>) -> (r: Seq<usize>)
    requires
        s.finite(),
    ensures
        forall|i: int, j: int| 0 <= i < j < r.len() ==> stack_lt(w, #[trigger] r[i], #[trigger] r[j]),
        forall|x: usize| #[trigger] r.contains(x) <==> s.contains(x),
    decreases s.len(),
{
    if s.len() == 0 {
        assert(s =~= Set::<usize>::empty()) by {
            if exists|x: usize| s.contains(x) {
                let x = choose|x: usize| s.contains(x);
                assert(s.remove(x).len() < s.len());
            }
        }
        Seq::empty()
    } else {
        let m = max_member(w, s);
        let r0 = sorted_seq_of(w, s.remove(m));
        let r = r0.push(m);
        assert forall|i: int, j: int| 0 <= i < j < r.len() implies stack_lt(w, #[trigger] r[i], #[trigger] r[j]) by {
            if j == r.len() - 1 {
                assert(r0.contains(r0[i]));
                assert(s.contains(r0[i]) && r0[i] != m);
                assert(crate::logic::rules::common::stack_le(w, r0[i], m));
            } else {
                assert(r[i] == r0[i] && r[j] == r0[j]);
            }
        }
        assert forall|x: usize| #[trigger] r.contains(x) <==> s.contains(x) by {
            if r.contains(x) && x != m {
                let i = choose|i: int| 0 <= i < r.len() && r[i] == x;
                assert(r0[i] == x);
                assert(r0.contains(x));
            }
            if s.contains(x) && x != m {
                assert(r0.contains(x));
                let i = choose|i: int| 0 <= i < r0.len() && r0[i] == x;
                assert(r[i] == x);
            }
            if x == m {
                assert(r[r.len() - 1] == m);
            }
        }
        r
    }
}

/// In a well-formed world every pile has its members listed from the bottom up.
proof fn lemma_sorted_pile_exists(w: WorldView, st: StackType, need_card: bool)
    requires
        w.wf(),
    ensures
        is_sorted_pile(w, st, need_card, sorted_pile(w, st, need_card)),
{
    let members = pile_set(w, st, need_card);
    assert(members.subset_of(w.entities));
    vstd::set_lib::lemma_len_subset(members, w.entities);
    let s = sorted_seq_of(w, members);
    assert(is_sorted_pile(w, st, need_card, s));
    lemma_sorted_pile(w, st, need_card, s);
}

proof fn lemma_waste_to_stock_piles(w: WorldView, s: Seq<usize>, k: int, need_card: bool)
    requires
        0 <= k <= s.len(),
        s.no_duplicates(),
        forall|i: int| 0 <= i < s.len() ==> is_member(w, StackType::Waste, need_card, #[trigger] s[i]),
    ensures
        ({
            let r = waste_to_stock(w, s, k);
            &&& r.entities == w.entities
            &&& forall|id: usize| (#[trigger] component_of::<Card>(r, id) is Some) == (component_of::<Card>(w, id) is Some)
            &&& forall|id: usize| #[trigger] in_stack(r, id, StackType::Stock) == (s.take(k).contains(id) || in_stack(w, id, StackType::Stock))
            &&& forall|id: usize| #[trigger] in_stack(r, id, StackType::Waste) == (!s.take(k).contains(id) && in_stack(w, id, StackType::Waste))
        }),
    decreases k,
{
    if k == 0 {
        assert(s.take(0) =~= Seq::<usize>::empty());
    } else {
        lemma_waste_to_stock_piles(w, s, k - 1, need_card);
        let r0 = waste_to_stock(w, s, k - 1);
        let r = waste_to_stock(w, s, k);
        let id = s[k - 1];
        assert(is_member(w, StackType::Waste, need_card, id));
        assert(!s.take(k - 1).contains(id)) by {
            if s.take(k - 1).contains(id) {
                let i = choose|i: int| 0 <= i < k - 1 && #[trigger] s.take(k - 1)[i] == id;
                assert(s[i] == s[k - 1]);
            }
        }
        assert(in_stack(r0, id, StackType::Waste));
        assert forall|x: usize| #[trigger] s.take(k).contains(x) == (s.take(k - 1).contains(x) || x == id) by {
            if s.take(k).contains(x) {
                let i = choose|i: int| 0 <= i < k && #[trigger] s.take(k)[i] == x;
                if i < k - 1 {
                    assert(s.take(k - 1)[i] == x);
                }
            }
            if s.take(k - 1).contains(x) {
                let i = choose|i: int| 0 <= i < k - 1 && #[trigger] s.take(k - 1)[i] == x;
                assert(s.take(k)[i] == x);
            }
            if x == id {
                assert(s.take(k)[k - 1] == x);
            }
        }
        assert forall|x: usize| (#[trigger] component_of::<Card>(r, x) is Some) == (component_of::<Card>(w, x) is Some) by {
            assert((component_of::<Card>(r, x) is Some) == (component_of::<Card>(r0, x) is Some));
        }
        assert forall|x: usize| #[trigger] in_stack(r, x, StackType::Stock) == (s.take(k).contains(x) || in_stack(w, x, StackType::Stock)) by {
            if x != id {
                assert(component_of::<StackInfo>(r, x) == component_of::<StackInfo>(r0, x));
                assert(in_stack(r0, x, StackType::Stock) == (s.take(k - 1).contains(x) || in_stack(w, x, StackType::Stock)));
            } else {
                assert(component_of::<StackInfo>(r, x) == Some(StackInfo { stack_type: StackType::Stock, position_in_stack: (k - 1) as u8 }));
            }
        }
        assert forall|x: usize| #[trigger] in_stack(r, x, StackType::Waste) == (!s.take(k).contains(x) && in_stack(w, x, StackType::Waste)) by {
            if x != id {
                assert(component_of::<StackInfo>(r, x) == component_of::<StackInfo>(r0, x));
                assert(in_stack(r0, x, StackType::Waste) == (!s.take(k - 1).contains(x) && in_stack(w, x, StackType::Waste)));
            } else {
                assert(component_of::<StackInfo>(r, x) == Some(StackInfo { stack_type: StackType::Stock, position_in_stack: (k - 1) as u8 }));
            }
        }
    }
}

/// A deal from the stock moves exactly its top card: the stock loses it, the waste
/// gains it, and no card is made or lost.
pub proof fn lemma_deal_moves_top(w: WorldView, need_card: bool)
    requires
        w.wf(),
        top_of(w, StackType::Stock, need_card) is Some,
    ensures
        ({
            let t = top_of(w, StackType::Stock, need_card).unwrap();
            let r = stock_to_waste(w, need_card);
            &&& pile_set(r, StackType::Stock, need_card) == pile_set(w, StackType::Stock, need_card).remove(t)
            &&& pile_set(r, StackType::Waste, need_card) == pile_set(w, StackType::Waste, need_card).insert(t)
            &&& component_of::<Card>(w, t) is Some ==> component_of::<Card>(r, t).unwrap().is_face_up
            &&& r.entities == w.entities
            &&& r.cards.unwrap().dom() == w.cards.unwrap().dom()
        }),
{
    let t = top_of(w, StackType::Stock, need_card).unwrap();
    let r = stock_to_waste(w, need_card);
    assert(crate::logic::rules::common::is_top(w, StackType::Stock, need_card, t)) by {
        assert(exists|id: usize| crate::logic::rules::common::is_top(w, StackType::Stock, need_card, id));
    }
    assert(pile_set(r, StackType::Stock, need_card) =~= pile_set(w, StackType::Stock, need_card).remove(t));
    assert(pile_set(r, StackType::Waste, need_card) =~= pile_set(w, StackType::Waste, need_card).insert(t));
    assert(r.cards.unwrap().dom() =~= w.cards.unwrap().dom());
}

/// Turning the waste back moves the whole waste into the stock: the stock then holds
/// what both held, the waste nothing, and no card is made or lost.
pub proof fn lemma_reset_moves_waste(w: WorldView, need_card: bool)
    requires
        w.wf(),
    ensures
        ({
            let r = reset_result(w, need_card);
            &&& pile_set(r, StackType::Stock, need_card) == pile_set(w, StackType::Stock, need_card).union(
                pile_set(w, StackType::Waste, need_card))
            &&& pile_set(r, StackType::Waste, need_card) == Set::<usize>::empty()
            &&& r.entities == w.entities
        }),
{
    lemma_sorted_pile_exists(w, StackType::Waste, need_card);
    let s = sorted_pile(w, StackType::Waste, need_card);
    assert(s.no_duplicates()) by {
        assert forall|i: int, j: int| 0 <= i < s.len() && 0 <= j < s.len() && i != j implies s[i] != s[j] by {
            if i < j {
                assert(stack_lt(w, s[i], s[j]));
            } else {
                assert(stack_lt(w, s[j], s[i]));
            }
        }
    }
    assert forall|i: int| 0 <= i < s.len() implies is_member(w, StackType::Waste, need_card, #[trigger] s[i]) by {
        assert(s.contains(s[i]));
    }
    lemma_waste_to_stock_piles(w, s, s.len() as int, need_card);
    assert(s.take(s.len() as int) =~= s);
    let r = reset_result(w, need_card);
    assert(pile_set(r, StackType::Stock, need_card) =~= pile_set(w, StackType::Stock, need_card).union(
        pile_set(w, StackType::Waste, need_card))) by {
        assert forall|id: usize| pile_set(r, StackType::Stock, need_card).contains(id) == pile_set(w, StackType::Stock, need_card).union(
            pile_set(w, StackType::Waste, need_card)).contains(id) by {
            assert(in_stack(r, id, StackType::Stock) == (s.contains(id) || in_stack(w, id, StackType::Stock)));
            assert((component_of::<Card>(r, id) is Some) == (component_of::<Card>(w, id) is Some));
        }
    }
    assert(pile_set(r, StackType::Waste, need_card) =~= Set::<usize>::empty()) by {
        assert forall|id: usize| !pile_set(r, StackType::Waste, need_card).contains(id) by {
            assert(in_stack(r, id, StackType::Waste) == (!s.contains(id) && in_stack(w, id, StackType::Waste)));
            assert((component_of::<Card>(r, id) is Some) == (component_of::<Card>(w, id) is Some));
            if in_stack(w, id, StackType::Waste) && w.entities.contains(id) && (need_card ==> component_of::<Card>(w, id) is Some) {
                assert(s.contains(id));
            }
        }
    }
}

/// A deal from the stock lays the dealt card on top of the waste. When the cards of the
/// waste lie at places below their number (as deals and resets leave them, with fewer
/// than 256 of them), the dealt card comes to lie above every card already on the waste,
/// it is the waste's top afterwards, and the waste's cards again lie at places below
/// their number.
pub proof fn lemma_deal_tops_the_waste(w: WorldView, need_card: bool)
    requires
        w.wf(),
        top_of(w, StackType::Stock, need_card) is Some,
        pile_set(w, StackType::Waste, need_card).len() < 256,
        forall|id: usize| #[trigger] pile_set(w, StackType::Waste, need_card).contains(id)
            ==> pos_in_stack(w, id) < pile_set(w, StackType::Waste, need_card).len(),
    ensures
        ({
            let t = top_of(w, StackType::Stock, need_card).unwrap();
            let r = stock_to_waste(w, need_card);
            &&& top_of(r, StackType::Waste, need_card) == Some(t)
            &&& forall|id: usize| #[trigger] pile_set(w, StackType::Waste, need_card).contains(id)
                ==> pos_in_stack(w, id) < pos_in_stack(r, t)
            &&& pile_set(r, StackType::Waste, need_card).len() == pile_set(w, StackType::Waste, need_card).len() + 1
            &&& forall|id: usize| #[trigger] pile_set(r, StackType::Waste, need_card).contains(id)
                ==> pos_in_stack(r, id) < pile_set(r, StackType::Waste, need_card).len()
        }),
{
    let t = top_of(w, StackType::Stock, need_card).unwrap();
    let r = stock_to_waste(w, need_card);
    let old_waste = pile_set(w, StackType::Waste, need_card);
    let n = old_waste.len();
    assert(is_top(w, StackType::Stock, need_card, t)) by {
        assert(exists|id: usize| is_top(w, StackType::Stock, need_card, id));
    }
    lemma_deal_moves_top(w, need_card);
    assert(old_waste.subset_of(w.entities));
    vstd::set_lib::lemma_len_subset(old_waste, w.entities);
    assert(!old_waste.contains(t));
    assert(component_of::<StackInfo>(r, t) == Some(StackInfo { stack_type: StackType::Waste, position_in_stack: n as u8 }));
    assert(pos_in_stack(r, t) == n);
    assert forall|id: usize| #[trigger] old_waste.contains(id) implies pos_in_stack(r, id) == pos_in_stack(w, id) by {
        assert(id != t);
    }
    assert forall|j: usize| #[trigger] is_member(r, StackType::Waste, need_card, j) implies stack_le(r, j, t) by {
        assert(pile_set(r, StackType::Waste, need_card).contains(j));
        if j != t {
            assert(old_waste.contains(j));
        }
    }
    lemma_top_of(r, StackType::Waste, need_card, t);
    assert forall|id: usize| #[trigger] pile_set(r, StackType::Waste, need_card).contains(id)
        implies pos_in_stack(r, id) < pile_set(r, StackType::Waste, need_card).len() by {
        if id != t {
            assert(old_waste.contains(id));
        }
    }
}

} // verus!
