//! Taking over the game state that the server sends.

use vstd::prelude::*;
use crate::entity::Entity;
use crate::protocol::{GameStateData, PlayerData, CardData};
use crate::components::{Card, Position, StackInfo, Player, DraggingInfo};
use crate::ecs::world::{World, WorldView, component_of};
use crate::app::state_getter::{card_data_of, lists_all_cards};

verus! {

broadcast use vstd::std_specs::vec::axiom_spec_into_iter;

/// `m` without the keys `ks`, if `m` is there.
pub open spec fn remove_keys_opt<T>(m: Option<Map<usize, T>>, ks: Set<usize>) -> Option<Map<usize, T>> {
    match m {
        Some(mm) => Some(mm.remove_keys(ks)),
        None => m,
    }
}

/// The entities that hold a component in store `m` (none while the kind is not registered).
pub open spec fn holders<T>(m: Option<Map<usize, T>>) -> Set<usize> {
    match m {
        Some(mm) => mm.dom(),
        None => Set::empty(),
    }
}

/// The world once every player loses its player component, and every card holder its
/// card, position, stack info and dragging info.
pub open spec fn cleared_for_state(w: WorldView) -> WorldView {
    let ph = holders(w.players);
    let ch = holders(w.cards);
    WorldView {
        players: remove_keys_opt(w.players, ph),
        cards: remove_keys_opt(w.cards, ch),
        positions: remove_keys_opt(w.positions, ch),
        stack_infos: remove_keys_opt(w.stack_infos, ch),
        dragging_infos: remove_keys_opt(w.dragging_infos, ch),
        ..w
    }
}

/// The world after the first `k` players of `ps` are taken over, each on the entity
/// of its identifier, not on turn.
pub open spec fn apply_players(w: WorldView, ps: Seq<PlayerData>, k: int) -> WorldView
    decreases k,
{
    if k <= 0 {
        w
    } else {
        let r = apply_players(w, ps, k - 1);
        let id = ps[k - 1].id as usize;
        let r1 = r.with_entity(id);
        WorldView {
            players: Some(r1.players.unwrap().insert(id, Player { name: ps[k - 1].name, is_current_turn: false })),
            ..r1
        }
    }
}

/// The world after the first `k` cards of `cs` are taken over, each on its entity.
pub open spec fn apply_cards(w: WorldView, cs: Seq<CardData>, k: int) -> WorldView
    decreases k,
{
    if k <= 0 {
        w
    } else {
        let r = apply_cards(w, cs, k - 1);
        let c = cs[k - 1];
        let id = c.entity.0;
        let r1 = r.with_entity(id);
        WorldView {
            cards: Some(r1.cards.unwrap().insert(id, Card { suit: c.suit, rank: c.rank, is_face_up: c.is_face_up })),
            stack_infos: Some(r1.stack_infos.unwrap().insert(id, StackInfo { stack_type: c.stack_type, position_in_stack: c.position_in_stack })),
            positions: Some(r1.positions.unwrap().insert(id, Position { x: c.position.x, y: c.position.y })),
            ..r1
        }
    }
}

/// The world after the game state `(ps, cs)` is taken over.
pub open spec fn state_applied(w: WorldView, ps: Seq<PlayerData>, cs: Seq<CardData>) -> WorldView {
    apply_cards(apply_players(cleared_for_state(w), ps, ps.len() as int), cs, cs.len() as int)
}

/// Whether taking over `(ps, cs)` changes anything that the world reports: players or
/// cards were there before, or come with the state.
pub open spec fn state_changes(w: WorldView, ps: Seq<PlayerData>, cs: Seq<CardData>) -> bool {
    ||| exists|id: usize| holders(w.players).contains(id)
    ||| exists|id: usize| holders(w.cards).contains(id)
    ||| ps.len() > 0
    ||| cs.len() > 0
}

proof fn lemma_apply_players_keeps(w: WorldView, ps: Seq<PlayerData>, k: int)
    requires
        w.wf(),
        k > 0 ==> w.players is Some,
        0 <= k <= ps.len(),
    ensures
        apply_players(w, ps, k).wf(),
        apply_players(w, ps, k).players is Some <==> w.players is Some,
        apply_players(w, ps, k).game_states == w.game_states,
        apply_players(w, ps, k).dragging_infos == w.dragging_infos,
        apply_players(w, ps, k).cards == w.cards,
        apply_players(w, ps, k).stack_infos == w.stack_infos,
        apply_players(w, ps, k).positions == w.positions,
    decreases k,
{
    if k > 0 {
        lemma_apply_players_keeps(w, ps, k - 1);
    }
}

/// The kinds that taking over `(ps, cs)` writes are registered: players when the state
/// brings players; cards, stack infos and positions when it brings cards.
pub open spec fn state_kinds_registered(w: WorldView, ps: Seq<PlayerData>, cs: Seq<CardData>) -> bool {
    &&& ps.len() > 0 ==> w.players is Some
    &&& cs.len() > 0 ==> (w.cards is Some && w.stack_infos is Some && w.positions is Some)
}

/// `w1` has the same kinds registered as `w0`.
pub open spec fn kinds_kept(w0: WorldView, w1: WorldView) -> bool {
    &&& (w1.players is Some <==> w0.players is Some)
    &&& (w1.cards is Some <==> w0.cards is Some)
    &&& (w1.stack_infos is Some <==> w0.stack_infos is Some)
    &&& (w1.positions is Some <==> w0.positions is Some)
    &&& (w1.game_states is Some <==> w0.game_states is Some)
    &&& (w1.dragging_infos is Some <==> w0.dragging_infos is Some)
}

/// Takes over the game state from the server: the players and cards held before are
/// cleared, then every player and every card of the state is set on its entity.
/// Returns whether anything changed.
pub fn apply_game_state(world: &mut World, game_state: GameStateData) -> (changed: bool)
    requires
        old(world).wf(),
        state_kinds_registered(old(world)@, game_state.players@, game_state.cards@),
        forall|i: int| 0 <= i < game_state.cards@.len() ==> (#[trigger] game_state.cards@[i]).entity.0 < usize::MAX,
        forall|i: int| 0 <= i < game_state.players@.len() ==> (#[trigger] game_state.players@[i]).id < usize::MAX,
    ensures
        changed == state_changes(old(world)@, game_state.players@, game_state.cards@),
        final(world)@ == state_applied(old(world)@, game_state.players@, game_state.cards@),
        final(world).wf(),
        kinds_kept(old(world)@, final(world)@),
{
    let ghost w0 = world@;
    let ghost ps = game_state.players@;
    let ghost cs = game_state.cards@;
    let mut state_changed = false;
    let existing_player_entities = world.get_all_entities_with_component::<Player>();
    if existing_player_entities.len() > 0 {
        state_changed = true;
        proof {
            assert(existing_player_entities@.contains(existing_player_entities@[0]));
        }
    }
    let np = existing_player_entities.len();
    let mut i: usize = 0;
    while i < np
        invariant
            np == existing_player_entities@.len(),
            i <= np,
            world.wf(),
            w0.wf(),
            forall|e: Entity| #[trigger] existing_player_entities@.contains(e) <==> (holders(w0.players).contains(e.0)
                && w0.entities.contains(e.0)),
            world@ == (WorldView {
                players: remove_keys_opt(w0.players, Set::new(|id: usize| exists|j: int| 0 <= j < i && #[trigger] existing_player_entities@[j].0 == id)),
                ..w0
            }),
        decreases np - i,
    {
        let entity = existing_player_entities[i];
        proof {
            assert(existing_player_entities@.contains(entity));
        }
        world.remove_component::<Player>(entity);
        proof {
            let s0 = Set::new(|id: usize| exists|j: int| 0 <= j < i && #[trigger] existing_player_entities@[j].0 == id);
            let s1 = Set::new(|id: usize| exists|j: int| 0 <= j < i + 1 && #[trigger] existing_player_entities@[j].0 == id);
            assert(s1 =~= s0.insert(entity.0)) by {
                assert forall|id: usize| s1.contains(id) implies s0.insert(entity.0).contains(id) by {
                    let j = choose|j: int| 0 <= j < i + 1 && #[trigger] existing_player_entities@[j].0 == id;
                    if j < i {
                        assert(s0.contains(id));
                    }
                }
                assert forall|id: usize| s0.insert(entity.0).contains(id) implies s1.contains(id) by {
                    if id == entity.0 {
                        assert(existing_player_entities@[i as int].0 == id);
                    } else {
                        let j = choose|j: int| 0 <= j < i && #[trigger] existing_player_entities@[j].0 == id;
                        assert(existing_player_entities@[j].0 == id);
                    }
                }
            }
            assert(w0.players.unwrap().remove_keys(s1) =~= w0.players.unwrap().remove_keys(s0).remove(entity.0));
            assert(world@ =~= (WorldView { players: remove_keys_opt(w0.players, s1), ..w0 }));
        }
        i = i + 1;
    }
    let ghost w1 = world@;
    proof {
        let s = Set::new(|id: usize| exists|j: int| 0 <= j < np && #[trigger] existing_player_entities@[j].0 == id);
        assert(s =~= holders(w0.players)) by {
            assert forall|id: usize| s.contains(id) implies holders(w0.players).contains(id) by {
                let j = choose|j: int| 0 <= j < np && #[trigger] existing_player_entities@[j].0 == id;
                assert(existing_player_entities@.contains(existing_player_entities@[j]));
            }
            assert forall|id: usize| holders(w0.players).contains(id) implies s.contains(id) by {
                assert(existing_player_entities@.contains(Entity(id)));
                let j = choose|j: int| 0 <= j < np && existing_player_entities@[j] == Entity(id);
                assert(existing_player_entities@[j].0 == id);
            }
        }
        if !state_changed {
            assert forall|id: usize| !holders(w0.players).contains(id) by {
                if holders(w0.players).contains(id) {
                    assert(existing_player_entities@.contains(Entity(id)));
                }
            }
        }
    }
    let existing_card_entities = world.get_all_entities_with_component::<Card>();
    if existing_card_entities.len() > 0 {
        state_changed = true;
        proof {
            assert(existing_card_entities@.contains(existing_card_entities@[0]));
        }
    }
    let nc = existing_card_entities.len();
    let mut i: usize = 0;
    while i < nc
        invariant
            nc == existing_card_entities@.len(),
            i <= nc,
            world.wf(),
            w1.wf(),
            forall|e: Entity| #[trigger] existing_card_entities@.contains(e) <==> (holders(w1.cards).contains(e.0)
                && w1.entities.contains(e.0)),
            world@ == ({
                let s = Set::new(|id: usize| exists|j: int| 0 <= j < i && #[trigger] existing_card_entities@[j].0 == id);
                WorldView {
                    cards: remove_keys_opt(w1.cards, s),
                    positions: remove_keys_opt(w1.positions, s),
                    stack_infos: remove_keys_opt(w1.stack_infos, s),
                    dragging_infos: remove_keys_opt(w1.dragging_infos, s),
                    ..w1
                }
            }),
        decreases nc - i,
    {
        let entity = existing_card_entities[i];
        proof {
            assert(existing_card_entities@.contains(entity));
        }
        world.remove_component::<Card>(entity);
        world.remove_component::<Position>(entity);
        world.remove_component::<StackInfo>(entity);
        world.remove_component::<DraggingInfo>(entity);
        proof {
            let s0 = Set::new(|id: usize| exists|j: int| 0 <= j < i && #[trigger] existing_card_entities@[j].0 == id);
            let s1 = Set::new(|id: usize| exists|j: int| 0 <= j < i + 1 && #[trigger] existing_card_entities@[j].0 == id);
            assert(s1 =~= s0.insert(entity.0)) by {
                assert forall|id: usize| s1.contains(id) implies s0.insert(entity.0).contains(id) by {
                    let j = choose|j: int| 0 <= j < i + 1 && #[trigger] existing_card_entities@[j].0 == id;
                    if j < i {
                        assert(s0.contains(id));
                    }
                }
                assert forall|id: usize| s0.insert(entity.0).contains(id) implies s1.contains(id) by {
                    if id == entity.0 {
                        assert(existing_card_entities@[i as int].0 == id);
                    } else {
                        let j = choose|j: int| 0 <= j < i && #[trigger] existing_card_entities@[j].0 == id;
                        assert(existing_card_entities@[j].0 == id);
                    }
                }
            }
            assert(w1.cards.unwrap().remove_keys(s1) =~= w1.cards.unwrap().remove_keys(s0).remove(entity.0));
            if let Some(m) = w1.positions {
                assert(m.remove_keys(s1) =~= m.remove_keys(s0).remove(entity.0));
            }
            if let Some(m) = w1.stack_infos {
                assert(m.remove_keys(s1) =~= m.remove_keys(s0).remove(entity.0));
            }
            if let Some(m) = w1.dragging_infos {
                assert(m.remove_keys(s1) =~= m.remove_keys(s0).remove(entity.0));
            }
        }
        i = i + 1;
    }
    proof {
        let s = Set::new(|id: usize| exists|j: int| 0 <= j < nc && #[trigger] existing_card_entities@[j].0 == id);
        assert(s =~= holders(w0.cards)) by {
            assert forall|id: usize| s.contains(id) implies holders(w0.cards).contains(id) by {
                let j = choose|j: int| 0 <= j < nc && #[trigger] existing_card_entities@[j].0 == id;
                assert(existing_card_entities@.contains(existing_card_entities@[j]));
            }
            assert forall|id: usize| holders(w0.cards).contains(id) implies s.contains(id) by {
                assert(existing_card_entities@.contains(Entity(id)));
                let j = choose|j: int| 0 <= j < nc && existing_card_entities@[j] == Entity(id);
                assert(existing_card_entities@[j].0 == id);
            }
        }
        if existing_card_entities.len() == 0 {
            assert forall|id: usize| !holders(w0.cards).contains(id) by {
                if holders(w0.cards).contains(id) {
                    assert(existing_card_entities@.contains(Entity(id)));
                }
            }
        }
        assert(world@ =~= cleared_for_state(w0));
        assert(world@ == apply_players(cleared_for_state(w0), ps, 0));
    }
    if game_state.players.len() > 0 {
        state_changed = true;
    }
    if game_state.cards.len() > 0 {
        state_changed = true;
    }
    let ghost wc = world@;
    let ghost mut k: int = 0;
    for player_data in it: game_state.players.into_iter()
        invariant
            it.seq() == ps,
            k == it.index(),
            wc == cleared_for_state(w0),
            wc.wf(),
            ps.len() > 0 ==> wc.players is Some,
            forall|i: int| 0 <= i < ps.len() ==> (#[trigger] ps[i]).id < usize::MAX,
            world.wf(),
            world@ == apply_players(wc, ps, k),
    {
        proof {
            lemma_apply_players_keeps(wc, ps, k);
        }
        let player_entity = Entity(player_data.id as usize);
        world.create_entity_with_id(player_entity);
        world.add_component(player_entity, Player { name: player_data.name, is_current_turn: false });
        proof {
            assert(world@ =~= apply_players(wc, ps, k + 1));
            k = k + 1;
        }
    }
    let ghost wp = world@;
    proof {
        lemma_apply_players_keeps(wc, ps, ps.len() as int);
    }
    let ghost mut k: int = 0;
    for card_data in it: game_state.cards.into_iter()
        invariant
            it.seq() == cs,
            k == it.index(),
            wp.wf(),
            cs.len() > 0 ==> (wp.cards is Some && wp.stack_infos is Some && wp.positions is Some),
            forall|i: int| 0 <= i < cs.len() ==> (#[trigger] cs[i]).entity.0 < usize::MAX,
            world.wf(),
            world@ == apply_cards(wp, cs, k),
    {
        proof {
            lemma_apply_cards_keeps(wp, cs, k);
        }
        let entity = card_data.entity;
        world.create_entity_with_id(entity);
        let card_component = Card { suit: card_data.suit, rank: card_data.rank, is_face_up: card_data.is_face_up };
        world.add_component(entity, card_component);
        let stack_info_component = StackInfo {
            stack_type: card_data.stack_type,
            position_in_stack: card_data.position_in_stack,
        };
        world.add_component(entity, stack_info_component);
        let position_component = Position { x: card_data.position.x, y: card_data.position.y };
        world.add_component(entity, position_component);
        proof {
            assert(world@ =~= apply_cards(wp, cs, k + 1));
            k = k + 1;
        }
    }
    proof {
        lemma_apply_cards_keeps(wp, cs, cs.len() as int);
    }
    state_changed
}

proof fn lemma_apply_cards_keeps(w: WorldView, cs: Seq<CardData>, k: int)
    requires
        w.wf(),
        k > 0 ==> (w.cards is Some && w.stack_infos is Some && w.positions is Some),
        0 <= k <= cs.len(),
    ensures
        apply_cards(w, cs, k).wf(),
        apply_cards(w, cs, k).cards is Some <==> w.cards is Some,
        apply_cards(w, cs, k).stack_infos is Some <==> w.stack_infos is Some,
        apply_cards(w, cs, k).positions is Some <==> w.positions is Some,
        apply_cards(w, cs, k).game_states == w.game_states,
        apply_cards(w, cs, k).dragging_infos == w.dragging_infos,
        apply_cards(w, cs, k).players == w.players,
    decreases k,
{
    if k > 0 {
        lemma_apply_cards_keeps(w, cs, k - 1);
    }
}

/// The card of `cs` that names entity `id` (the last such one), if any.
pub open spec fn card_named(cs: Seq<CardData>, id: usize) -> Option<CardData>
    decreases cs.len(),
{
    if cs.len() == 0 {
        None
    } else if cs.last().entity.0 == id {
        Some(cs.last())
    } else {
        card_named(cs.drop_last(), id)
    }
}

proof fn lemma_apply_cards_read(w: WorldView, cs: Seq<CardData>, k: int)
    requires
        w.wf(),
        w.cards == Some(Map::<usize, Card>::empty()),
        w.stack_infos is Some,
        w.positions is Some,
        0 <= k <= cs.len(),
    ensures
        forall|id: usize| #[trigger] card_data_of(apply_cards(w, cs, k), id) == card_named(cs.take(k), id),
    decreases k,
{
    if k == 0 {
        assert forall|id: usize| #[trigger] card_data_of(apply_cards(w, cs, k), id) == card_named(cs.take(k), id) by {
            assert(component_of::<Card>(w, id) is None);
        }
    } else {
        lemma_apply_cards_read(w, cs, k - 1);
        lemma_apply_cards_keeps(w, cs, k - 1);
        let r = apply_cards(w, cs, k - 1);
        let c = cs[k - 1];
        assert(cs.take(k).drop_last() =~= cs.take(k - 1));
        assert(cs.take(k).last() == c);
        assert forall|id: usize| #[trigger] card_data_of(apply_cards(w, cs, k), id) == card_named(cs.take(k), id) by {
            if id == c.entity.0 {
                assert(card_data_of(apply_cards(w, cs, k), id) == Some(c));
            } else {
                assert(card_data_of(apply_cards(w, cs, k), id) == card_data_of(r, id));
            }
        }
    }
}

/// What is read back of a taken-over game state is what it held: after the state
/// `(ps, cs)` is taken over, the card data of every entity is that of the card of `cs`
/// naming it (the last one, if several do), and an entity no card of `cs` names has none.
pub proof fn lemma_apply_then_read(w: WorldView, ps: Seq<PlayerData>, cs: Seq<CardData>)
    requires
        w.wf(),
        w.players is Some,
        w.cards is Some,
        w.stack_infos is Some,
        w.positions is Some,
    ensures
        forall|id: usize| #[trigger] card_data_of(state_applied(w, ps, cs), id) == card_named(cs, id),
{
    let wc = cleared_for_state(w);
    assert(wc.cards.unwrap() =~= Map::<usize, Card>::empty());
    lemma_apply_players_keeps(wc, ps, ps.len() as int);
    let wp = apply_players(wc, ps, ps.len() as int);
    lemma_apply_cards_read(wp, cs, cs.len() as int);
    assert(cs.take(cs.len() as int) =~= cs);
}

/// A card of a game state whose cards name distinct entities is the card named by its entity.
pub proof fn lemma_card_named_distinct(cs: Seq<CardData>, i: int)
    requires
        0 <= i < cs.len(),
        forall|a: int, b: int| 0 <= a < b < cs.len() ==> (#[trigger] cs[a]).entity != (#[trigger] cs[b]).entity,
    ensures
        card_named(cs, cs[i].entity.0) == Some(cs[i]),
    decreases cs.len(),
{
    if i < cs.len() - 1 {
        assert(cs[i].entity != cs[cs.len() - 1].entity);
        lemma_card_named_distinct(cs.drop_last(), i);
    }
}

/// Taking over a game state whose cards name distinct entities, then reading the
/// world's state, gives back exactly those cards, each once, in some order.
pub proof fn lemma_read_back_cards(w: WorldView, ps: Seq<PlayerData>, cs: Seq<CardData>, read: Seq<CardData>)
    requires
        w.wf(),
        w.players is Some,
        w.cards is Some,
        w.stack_infos is Some,
        w.positions is Some,
        forall|a: int, b: int| 0 <= a < b < cs.len() ==> (#[trigger] cs[a]).entity != (#[trigger] cs[b]).entity,
        lists_all_cards(state_applied(w, ps, cs), read),
    ensures
        read.len() == cs.len(),
        forall|x: CardData| read.contains(x) <==> cs.contains(x),
{
    let w1 = state_applied(w, ps, cs);
    lemma_apply_then_read(w, ps, cs);
    assert forall|x: CardData| read.contains(x) <==> cs.contains(x) by {
        if read.contains(x) {
            let j = choose|j: int| 0 <= j < read.len() && read[j] == x;
            assert(card_data_of(w1, read[j].entity.0) == Some(read[j]));
            lemma_card_named_in(cs, x.entity.0);
        }
        if cs.contains(x) {
            let i = choose|i: int| 0 <= i < cs.len() && cs[i] == x;
            lemma_card_named_distinct(cs, i);
            assert(card_data_of(w1, x.entity.0) is Some);
            let j = choose|j: int| 0 <= j < read.len() && (#[trigger] read[j]).entity.0 == x.entity.0;
            assert(card_data_of(w1, read[j].entity.0) == Some(read[j]));
        }
    }
    assert(read.no_duplicates()) by {
        assert forall|a: int, b: int| 0 <= a < read.len() && 0 <= b < read.len() && a != b implies read[a] != read[b] by {
            if a < b {
                assert(read[a].entity != read[b].entity);
            } else {
                assert(read[b].entity != read[a].entity);
            }
        }
    }
    assert(cs.no_duplicates()) by {
        assert forall|a: int, b: int| 0 <= a < cs.len() && 0 <= b < cs.len() && a != b implies cs[a] != cs[b] by {
            if a < b {
                assert(cs[a].entity != cs[b].entity);
            } else {
                assert(cs[b].entity != cs[a].entity);
            }
        }
    }
    read.unique_seq_to_set();
    cs.unique_seq_to_set();
    assert(read.to_set() =~= cs.to_set());
}

proof fn lemma_card_named_in(cs: Seq<CardData>, id: usize)
    ensures
        card_named(cs, id) matches Some(c) ==> cs.contains(c) && c.entity.0 == id,
    decreases cs.len(),
{
    if cs.len() > 0 && cs.last().entity.0 != id {
        lemma_card_named_in(cs.drop_last(), id);
        if let Some(c) = card_named(cs.drop_last(), id) {
            let j = choose|j: int| 0 <= j < cs.drop_last().len() && cs.drop_last()[j] == c;
            assert(cs[j] == c);
        }
    } else if cs.len() > 0 {
        assert(cs[cs.len() - 1] == cs.last());
    }
}

/// The entities named by the first `k` players of `ps`.
pub open spec fn named_players(ps: Seq<PlayerData>, k: int) -> Set<usize> {
    Set::new(|id: usize| exists|j: int| 0 <= j < k && #[trigger] ps[j].id as usize == id)
}

/// The entities named by the first `k` cards of `cs`.
pub open spec fn named_cards(cs: Seq<CardData>, k: int) -> Set<usize> {
    Set::new(|id: usize| exists|j: int| 0 <= j < k && #[trigger] cs[j].entity.0 == id)
}

proof fn lemma_apply_players_frame(w: WorldView, ps: Seq<PlayerData>, k: int)
    requires
        w.players is Some,
        0 <= k <= ps.len(),
    ensures
        ({
            let r = apply_players(w, ps, k);
            &&& r.players is Some
            &&& r.cards == w.cards
            &&& r.stack_infos == w.stack_infos
            &&& r.positions == w.positions
            &&& r.dragging_infos == w.dragging_infos
            &&& r.game_states == w.game_states
            &&& r.entities == w.entities.union(named_players(ps, k))
            &&& r.next_entity_id >= w.next_entity_id
            &&& forall|id: usize| named_players(ps, k).contains(id) ==> id < r.next_entity_id
            &&& (forall|id: usize| named_players(ps, k).contains(id) ==> id < w.next_entity_id)
                ==> r.next_entity_id == w.next_entity_id
        }),
    decreases k,
{
    if k > 0 {
        lemma_apply_players_frame(w, ps, k - 1);
        let id = ps[k - 1].id as usize;
        assert(named_players(ps, k) =~= named_players(ps, k - 1).insert(id)) by {
            assert forall|x: usize| named_players(ps, k).contains(x) implies named_players(ps, k - 1).insert(id).contains(x) by {
                let j = choose|j: int| 0 <= j < k && #[trigger] ps[j].id as usize == x;
                if j < k - 1 {
                    assert(named_players(ps, k - 1).contains(x));
                }
            }
            assert(named_players(ps, k).contains(id)) by {
                assert(ps[k - 1].id as usize == id);
            }
            assert forall|x: usize| named_players(ps, k - 1).contains(x) implies named_players(ps, k).contains(x) by {
                let j = choose|j: int| 0 <= j < k - 1 && #[trigger] ps[j].id as usize == x;
                assert(ps[j].id as usize == x);
            }
        }
        let r0 = apply_players(w, ps, k - 1);
        assert(apply_players(w, ps, k).entities =~= w.entities.union(named_players(ps, k)));
        if forall|x: usize| named_players(ps, k).contains(x) ==> x < w.next_entity_id {
            assert forall|x: usize| #[trigger] named_players(ps, k - 1).contains(x) implies x < w.next_entity_id by {
                assert(named_players(ps, k).contains(x));
            }
            assert(named_players(ps, k).contains(id));
        }
    } else {
        assert(w.entities.union(named_players(ps, k)) =~= w.entities);
    }
}

proof fn lemma_apply_cards_frame(w: WorldView, cs: Seq<CardData>, k: int)
    requires
        w.cards is Some,
        w.stack_infos is Some,
        w.positions is Some,
        0 <= k <= cs.len(),
    ensures
        ({
            let r = apply_cards(w, cs, k);
            &&& r.cards is Some
            &&& r.stack_infos is Some
            &&& r.positions is Some
            &&& r.players == w.players
            &&& r.dragging_infos == w.dragging_infos
            &&& r.game_states == w.game_states
            &&& r.cards.unwrap().dom() == w.cards.unwrap().dom().union(named_cards(cs, k))
            &&& r.stack_infos.unwrap().remove_keys(named_cards(cs, k)) == w.stack_infos.unwrap().remove_keys(named_cards(cs, k))
            &&& r.positions.unwrap().remove_keys(named_cards(cs, k)) == w.positions.unwrap().remove_keys(named_cards(cs, k))
            &&& r.entities == w.entities.union(named_cards(cs, k))
            &&& r.next_entity_id >= w.next_entity_id
            &&& forall|id: usize| named_cards(cs, k).contains(id) ==> id < r.next_entity_id
            &&& (forall|id: usize| named_cards(cs, k).contains(id) ==> id < w.next_entity_id)
                ==> r.next_entity_id == w.next_entity_id
        }),
    decreases k,
{
    if k > 0 {
        lemma_apply_cards_frame(w, cs, k - 1);
        let id = cs[k - 1].entity.0;
        let nk = named_cards(cs, k);
        let nk1 = named_cards(cs, k - 1);
        assert(nk =~= nk1.insert(id)) by {
            assert forall|x: usize| nk.contains(x) implies nk1.insert(id).contains(x) by {
                let j = choose|j: int| 0 <= j < k && #[trigger] cs[j].entity.0 == x;
                if j < k - 1 {
                    assert(nk1.contains(x));
                }
            }
            assert(nk.contains(id)) by {
                assert(cs[k - 1].entity.0 == id);
            }
            assert forall|x: usize| nk1.contains(x) implies nk.contains(x) by {
                let j = choose|j: int| 0 <= j < k - 1 && #[trigger] cs[j].entity.0 == x;
                assert(cs[j].entity.0 == x);
            }
        }
        let r0 = apply_cards(w, cs, k - 1);
        let r = apply_cards(w, cs, k);
        assert(r.cards.unwrap().dom() =~= w.cards.unwrap().dom().union(nk));
        if forall|x: usize| nk.contains(x) ==> x < w.next_entity_id {
            assert forall|x: usize| #[trigger] nk1.contains(x) implies x < w.next_entity_id by {
                assert(nk.contains(x));
            }
            assert(nk.contains(id));
        }
        assert(r.entities =~= w.entities.union(nk));
        assert(r.stack_infos.unwrap().remove_keys(nk) =~= w.stack_infos.unwrap().remove_keys(nk)) by {
            assert(r.stack_infos.unwrap().remove_keys(nk) =~= r0.stack_infos.unwrap().remove_keys(nk1).remove_keys(nk));
            assert(w.stack_infos.unwrap().remove_keys(nk) =~= w.stack_infos.unwrap().remove_keys(nk1).remove_keys(nk));
        }
        assert(r.positions.unwrap().remove_keys(nk) =~= w.positions.unwrap().remove_keys(nk)) by {
            assert(r.positions.unwrap().remove_keys(nk) =~= r0.positions.unwrap().remove_keys(nk1).remove_keys(nk));
            assert(w.positions.unwrap().remove_keys(nk) =~= w.positions.unwrap().remove_keys(nk1).remove_keys(nk));
        }
    } else {
        assert(w.entities.union(named_cards(cs, k)) =~= w.entities);
        assert(w.cards.unwrap().dom().union(named_cards(cs, k)) =~= w.cards.unwrap().dom());
    }
}

proof fn lemma_players_congruent(b1: WorldView, b2: WorldView, ps: Seq<PlayerData>, k: int)
    requires
        b1.players is Some,
        b1.players == b2.players,
        0 <= k <= ps.len(),
    ensures
        apply_players(b1, ps, k).players == apply_players(b2, ps, k).players,
    decreases k,
{
    if k > 0 {
        lemma_players_congruent(b1, b2, ps, k - 1);
    }
}

proof fn lemma_cards_congruent(b1: WorldView, b2: WorldView, cs: Seq<CardData>, k: int, d: Set<usize>)
    requires
        b1.cards is Some,
        b1.stack_infos is Some,
        b1.positions is Some,
        b1.cards == b2.cards,
        b2.stack_infos == Some(b1.stack_infos.unwrap().remove_keys(d)),
        b2.positions == Some(b1.positions.unwrap().remove_keys(d)),
        0 <= k <= cs.len(),
    ensures
        apply_cards(b1, cs, k).cards == apply_cards(b2, cs, k).cards,
        apply_cards(b2, cs, k).stack_infos == Some(apply_cards(b1, cs, k).stack_infos.unwrap().remove_keys(d.difference(named_cards(cs, k)))),
        apply_cards(b2, cs, k).positions == Some(apply_cards(b1, cs, k).positions.unwrap().remove_keys(d.difference(named_cards(cs, k)))),
    decreases k,
{
    if k > 0 {
        lemma_cards_congruent(b1, b2, cs, k - 1, d);
        lemma_apply_cards_frame(b1, cs, k - 1);
        let id = cs[k - 1].entity.0;
        let u0 = d.difference(named_cards(cs, k - 1));
        let u1 = d.difference(named_cards(cs, k));
        assert(u1 =~= u0.remove(id)) by {
            assert(cs[k - 1].entity.0 == id);
            assert forall|x: usize| u0.remove(id).contains(x) implies u1.contains(x) by {
                if named_cards(cs, k).contains(x) {
                    let j = choose|j: int| 0 <= j < k && #[trigger] cs[j].entity.0 == x;
                    if j < k - 1 {
                        assert(named_cards(cs, k - 1).contains(x));
                    }
                }
            }
            assert forall|x: usize| u1.contains(x) implies u0.remove(id).contains(x) by {
                if named_cards(cs, k - 1).contains(x) {
                    let j = choose|j: int| 0 <= j < k - 1 && #[trigger] cs[j].entity.0 == x;
                    assert(cs[j].entity.0 == x);
                }
            }
        }
        let s1 = apply_cards(b1, cs, k - 1).stack_infos.unwrap();
        let p1 = apply_cards(b1, cs, k - 1).positions.unwrap();
        let c = cs[k - 1];
        let sv = StackInfo { stack_type: c.stack_type, position_in_stack: c.position_in_stack };
        let pv = Position { x: c.position.x, y: c.position.y };
        assert(s1.remove_keys(u0).insert(id, sv) =~= s1.insert(id, sv).remove_keys(u1));
        assert(p1.remove_keys(u0).insert(id, pv) =~= p1.insert(id, pv).remove_keys(u1));
    } else {
        assert(d.difference(named_cards(cs, 0)) =~= d);
    }
}

/// Taking over the same game state twice leaves the world as taking it over once, when
/// dragging infos sit only on card holders (as the game puts them: it drags cards).
pub proof fn lemma_apply_twice(w: WorldView, ps: Seq<PlayerData>, cs: Seq<CardData>)
    requires
        w.wf(),
        w.players is Some,
        w.cards is Some,
        w.stack_infos is Some,
        w.positions is Some,
        w.dragging_infos matches Some(m) ==> m.dom().subset_of(w.cards.unwrap().dom()),
    ensures
        state_applied(state_applied(w, ps, cs), ps, cs) == state_applied(w, ps, cs),
{
    let np = ps.len() as int;
    let nc = cs.len() as int;
    let named = named_cards(cs, nc);
    let c0 = cleared_for_state(w);
    lemma_apply_players_frame(c0, ps, np);
    let p0 = apply_players(c0, ps, np);
    lemma_apply_cards_frame(p0, cs, nc);
    let w1 = apply_cards(p0, cs, nc);
    assert(c0.cards.unwrap() =~= Map::<usize, Card>::empty());
    assert(c0.players.unwrap() =~= Map::<usize, Player>::empty());
    assert(w1.cards.unwrap().dom() =~= named);
    let c1 = cleared_for_state(w1);
    assert(c1.players.unwrap() =~= Map::<usize, Player>::empty());
    assert(c1.cards.unwrap() =~= Map::<usize, Card>::empty());
    assert(c1.players == c0.players);
    assert(c1.cards == c0.cards);
    lemma_apply_players_frame(c1, ps, np);
    let p1 = apply_players(c1, ps, np);
    lemma_players_congruent(c0, c1, ps, np);
    assert(c1.entities == w1.entities);
    assert forall|id: usize| named_players(ps, np).contains(id) implies id < c1.next_entity_id by {}
    assert(p1.entities =~= w1.entities) by {
        assert(w1.entities =~= p0.entities.union(named));
        assert(p0.entities =~= c0.entities.union(named_players(ps, np)));
    }
    assert(p1.next_entity_id == w1.next_entity_id);
    assert(p1.stack_infos == Some(p0.stack_infos.unwrap().remove_keys(named))) by {
        assert(p1.stack_infos.unwrap() =~= w1.stack_infos.unwrap().remove_keys(named));
    }
    assert(p1.positions == Some(p0.positions.unwrap().remove_keys(named))) by {
        assert(p1.positions.unwrap() =~= w1.positions.unwrap().remove_keys(named));
    }
    lemma_cards_congruent(p0, p1, cs, nc, named);
    lemma_apply_cards_frame(p1, cs, nc);
    let w2 = apply_cards(p1, cs, nc);
    assert(named.difference(named) =~= Set::<usize>::empty());
    assert(w2.stack_infos.unwrap() =~= w1.stack_infos.unwrap());
    assert(w2.positions.unwrap() =~= w1.positions.unwrap());
    assert(w2.entities =~= w1.entities);
    assert(w2.next_entity_id == w1.next_entity_id);
    assert(w2.players == w1.players);
    assert(w2.cards == w1.cards);
    assert(w2.game_states == w1.game_states);
    if let Some(m) = w.dragging_infos {
        assert(c0.dragging_infos.unwrap() =~= Map::<usize, DraggingInfo>::empty());
        assert(w2.dragging_infos.unwrap() =~= w1.dragging_infos.unwrap());
    }
    assert(w2.stack_infos == w1.stack_infos);
    assert(w2.positions == w1.positions);
    assert(w2.dragging_infos == w1.dragging_infos);
    assert(w2 =~= w1);
}

} // verus!
