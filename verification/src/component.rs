//! Component storage: one map from entity to component per kind of component.

use vstd::prelude::*;
use std::collections::HashMap;
use crate::entity::Entity;
use crate::ecs::world::{World, WorldView};
use vstd::std_specs::iter::IteratorSpec;

verus! {

broadcast use vstd::std_specs::hash::group_hash_axioms;

/// All components of one kind, keyed by the entity that holds them.
#[derive(Debug)]
pub struct ComponentStorage<T> {
    components: HashMap<usize, T>,
}

impl<T> View for ComponentStorage<T> {
    type V = Map<usize, T>;

    closed spec fn view(&self) -> Map<usize, T> {
        self.components@
    }
}

/// `HashMap::get_mut` from std; vstd gives no specification of it.
/// Claims: the result is the value at `k` when the map holds `k`, and the map
/// afterwards holds, at `k`, whatever that reference was last given; without
/// `k` the result is `None` and the map is unchanged.
#[verifier::external_body]
fn hash_map_get_mut<T>(m: &mut HashMap<usize, T>, k: usize) -> (r: Option<&mut T>)
    ensures
        match r {
            Some(v) => old(m)@.contains_key(k) && *v == old(m)@[k] && final(m)@ == old(m)@.insert(
                k,
                *final(v),
            ),
            None => !old(m)@.contains_key(k) && final(m)@ == old(m)@,
        },
{
    m.get_mut(&k)
}

impl<T> ComponentStorage<T> {
    /// An empty storage.
    pub fn new() -> (s: Self)
        ensures
            s@ == Map::<usize, T>::empty(),
    {
        ComponentStorage { components: HashMap::new() }
    }

    /// Adds the component of `entity`, replacing the one it held.
    pub fn insert(&mut self, entity: Entity, component: T)
        ensures
            final(self)@ == old(self)@.insert(entity.0, component),
    {
        self.components.insert(entity.0, component);
    }

    /// The component of `entity`, if it has one.
    pub fn get(&self, entity: Entity) -> (r: Option<&T>)
        ensures
            match r {
                Some(v) => self@.contains_key(entity.0) && *v == self@[entity.0],
                None => !self@.contains_key(entity.0),
            },
    {
        self.components.get(&entity.0)
    }

    /// The component of `entity`, for writing, if it has one.
    pub fn get_mut(&mut self, entity: Entity) -> (r: Option<&mut T>)
        ensures
            match r {
                Some(v) => old(self)@.contains_key(entity.0) && *v == old(self)@[entity.0]
                    && final(self)@ == old(self)@.insert(entity.0, *final(v)),
                None => !old(self)@.contains_key(entity.0) && final(self)@ == old(self)@,
            },
    {
        hash_map_get_mut(&mut self.components, entity.0)
    }

    /// Removes the component of `entity` and returns it, if it had one.
    pub fn remove(&mut self, entity: Entity) -> (r: Option<T>)
        ensures
            final(self)@ == old(self)@.remove(entity.0),
            match r {
                Some(v) => old(self)@.contains_key(entity.0) && v == old(self)@[entity.0],
                None => !old(self)@.contains_key(entity.0),
            },
    {
        self.components.remove(&entity.0)
    }

    /// Every entity that holds a component here, each once.
    pub fn entities(&self) -> (r: Vec<Entity>)
        ensures
            r@.no_duplicates(),
            forall|e: Entity| r@.contains(e) <==> self@.contains_key(e.0),
    {
        let mut r: Vec<Entity> = Vec::new();
        let keys = self.components.keys();
        let ghost all = keys.remaining();
        assert(all.unref().to_set() == self@.dom());
        assert(all.no_duplicates());
        for k in it: keys
            invariant
                it.seq() == all,
                r@.len() == it.index(),
                forall|i: int| 0 <= i < it.index() ==> r@[i] == Entity(*all[i]),
        {
            r.push(Entity(*k));
        }
        assert(r@.len() == all.len());
        assert forall|e: Entity| r@.contains(e) <==> self@.contains_key(e.0) by {
            if r@.contains(e) {
                let i = choose|i: int| 0 <= i < r@.len() && r@[i] == e;
                assert(all.unref()[i] == e.0);
                assert(all.unref().to_set().contains(e.0));
            }
            if self@.contains_key(e.0) {
                assert(all.unref().to_set().contains(e.0));
                let i = choose|i: int| 0 <= i < all.len() && all.unref()[i] == e.0;
                assert(r@[i] == e);
            }
        }
        assert forall|i: int, j: int| 0 <= i < j < r@.len() implies r@[i] != r@[j] by {
            assert(all[i] != all[j]);
        }
        r
    }

    /// Every entity that holds a component here, with that component, each entity once.
    pub fn iter(&self) -> (r: Vec<(Entity, &T)>)
        ensures
            r@.len() == self@.len(),
            forall|i: int| 0 <= i < r@.len() ==> self@.contains_key((#[trigger] r@[i]).0.0) && *r@[i].1 == self@[r@[i].0.0],
            forall|id: usize| self@.contains_key(id) ==> exists|i: int| 0 <= i < r@.len() && (#[trigger] r@[i]).0.0 == id,
            forall|i: int, j: int| 0 <= i < j < r@.len() ==> (#[trigger] r@[i]).0 != (#[trigger] r@[j]).0,
    {
        let mut r: Vec<(Entity, &T)> = Vec::new();
        let entries = self.components.iter();
        let ghost all = entries.remaining();
        assert(all.len() == self@.dom().len());
        assert(all.no_duplicates());
        for (k, v) in it: entries
            invariant
                it.seq() == all,
                r@.len() == it.index(),
                forall|i: int| 0 <= i < it.index() ==> r@[i].0 == Entity(*all[i].0) && r@[i].1 == all[i].1,
        {
            r.push((Entity(*k), v));
        }
        assert forall|i: int| 0 <= i < r@.len() implies self@.contains_key((#[trigger] r@[i]).0.0) && *r@[i].1 == self@[r@[i].0.0] by {
            assert(self@.contains_key(*all[i].0));
        }
        assert forall|id: usize| self@.contains_key(id) implies exists|i: int| 0 <= i < r@.len() && (#[trigger] r@[i]).0.0 == id by {
            assert(all.contains((&id, &self@[id])));
            let i = choose|i: int| 0 <= i < all.len() && all[i] == (&id, &self@[id]);
            assert(r@[i].0.0 == id);
        }
        assert forall|i: int, j: int| 0 <= i < j < r@.len() implies (#[trigger] r@[i]).0 != (#[trigger] r@[j]).0 by {
            if r@[i].0 == r@[j].0 {
                assert(*all[i].0 == *all[j].0);
                assert(all[i] == all[j]);
            }
        }
        r
    }

    /// Whether no entity holds a component here.
    pub fn is_empty(&self) -> (b: bool)
        ensures
            b == (self@.len() == 0),
    {
        self.components.is_empty()
    }

    /// How many entities hold a component here.
    pub fn len(&self) -> (n: usize)
        ensures
            n == self@.len(),
    {
        self.components.len()
    }
}

impl<T> Default for ComponentStorage<T> {
    /// An empty storage.
    fn default() -> (s: Self)
        ensures
            s@ == Map::<usize, T>::empty(),
    {
        ComponentStorage::new()
    }
}

} // verus!

verus! {

/// The storage's map, if the storage is there.
pub open spec fn storage_view<T>(s: Option<ComponentStorage<T>>) -> Option<Map<usize, T>> {
    match s {
        Some(st) => Some(st@),
        None => None,
    }
}

/// Removes the entry of `id` from a store, if the store is there.
pub open spec fn remove_key<T>(s: Option<Map<usize, T>>, id: usize) -> Option<Map<usize, T>> {
    match s {
        Some(m) => Some(m.remove(id)),
        None => None,
    }
}

/// Every entity of the store, if there is one, is in `ids`.
pub open spec fn store_within<T>(s: Option<Map<usize, T>>, ids: Set<usize>) -> bool {
    s matches Some(m) ==> m.dom().subset_of(ids)
}

/// The kinds of component a world keeps a store for, one store each.
pub enum ComponentKind {
    Card,
    StackInfo,
    Position,
    GameState,
    Player,
    DraggingInfo,
}

/// Worlds `a` and `b` have the same store of kind `k`.
pub open spec fn same_store(k: ComponentKind, a: WorldView, b: WorldView) -> bool {
    match k {
        ComponentKind::Card => a.cards == b.cards,
        ComponentKind::StackInfo => a.stack_infos == b.stack_infos,
        ComponentKind::Position => a.positions == b.positions,
        ComponentKind::GameState => a.game_states == b.game_states,
        ComponentKind::Player => a.players == b.players,
        ComponentKind::DraggingInfo => a.dragging_infos == b.dragging_infos,
    }
}

/// A kind of component that a `World` can hold: each kind has a store of its own.
pub trait Component: Sized {
    /// Which of the world's stores holds this kind.
    spec fn kind() -> ComponentKind;

    /// The store of this kind in a world (`None` while the kind is not registered).
    spec fn store_of(w: WorldView) -> Option<Map<usize, Self>>;

    /// The world with the store of this kind replaced by `s`.
    spec fn with_store(w: WorldView, s: Option<Map<usize, Self>>) -> WorldView;

    /// How `store_of` and `with_store` relate, and that the other parts of a world (its
    /// entities, its next identifier and the stores of the other kinds) are kept.
    proof fn lemma_store_laws(w: WorldView, s: Option<Map<usize, Self>>, id: usize)
        ensures
            Self::store_of(Self::with_store(w, s)) == s,
            forall|k: ComponentKind| k != Self::kind() ==> #[trigger] same_store(k, Self::with_store(w, s), w),
            Self::with_store(w, Self::store_of(w)) == w,
            Self::with_store(w, s).entities == w.entities,
            Self::with_store(w, s).next_entity_id == w.next_entity_id,
            w.wf() ==> store_within(Self::store_of(w), w.entities),
            w.wf() && store_within(s, w.entities) ==> Self::with_store(w, s).wf(),
            Self::store_of(w.without_entity(id)) == remove_key(Self::store_of(w), id),
            Self::store_of(w.with_entity(id)) == Self::store_of(w),
    ;

    /// The store of this kind is the world's store of its kind, and nothing else.
    proof fn lemma_store_of_kind(a: WorldView, b: WorldView)
        ensures
            same_store(Self::kind(), a, b) ==> Self::store_of(a) == Self::store_of(b),
    ;

    /// Replacing the store by one within the living entities keeps a world well formed.
    proof fn lemma_with_store_wf(w: WorldView)
        ensures
            forall|s: Option<Map<usize, Self>>| w.wf() && store_within(s, w.entities) ==> #[trigger] Self::with_store(w, s).wf(),
    ;

    /// The storage of this kind in `world`.
    fn storage(world: &World) -> (r: &Option<ComponentStorage<Self>>)
        ensures
            storage_view(*r) == Self::store_of(world@),
    ;

    /// The storage of this kind in `world`, for writing.
    fn storage_mut(world: &mut World) -> (r: &mut Option<ComponentStorage<Self>>)
        ensures
            storage_view(*r) == Self::store_of(old(world)@),
            final(world)@ == Self::with_store(old(world)@, storage_view(*final(r))),
    ;
}

} // verus!

verus! {

/// A suit as the page sees it.
#[derive(Debug, Clone, Copy, PartialEq, Eq, Hash, Structural)]
pub enum Suit {
    Heart,
    Diamond,
    Club,
    Spade,
}

/// The suit the page sees for a card's suit.
pub open spec fn shown_suit(s: crate::components::Suit) -> Suit {
    match s {
        crate::components::Suit::Heart => Suit::Heart,
        crate::components::Suit::Diamond => Suit::Diamond,
        crate::components::Suit::Club => Suit::Club,
        crate::components::Suit::Spade => Suit::Spade,
    }
}

impl From<crate::components::Suit> for Suit {
    fn from(other_suit: crate::components::Suit) -> (r: Self) {
        match other_suit {
            crate::components::Suit::Heart => Suit::Heart,
            crate::components::Suit::Diamond => Suit::Diamond,
            crate::components::Suit::Club => Suit::Club,
            crate::components::Suit::Spade => Suit::Spade,
        }
    }
}

impl vstd::std_specs::convert::FromSpecImpl<crate::components::Suit> for Suit {
    open spec fn obeys_from_spec() -> bool {
        true
    }

    open spec fn from_spec(v: crate::components::Suit) -> Self {
        shown_suit(v)
    }
}

/// A rank as the page sees it, from Ace up to King.
#[derive(Debug, Clone, Copy, PartialEq, Eq, PartialOrd, Ord, Hash, Structural)]
pub enum Rank {
    Ace,
    Two,
    Three,
    Four,
    Five,
    Six,
    Seven,
    Eight,
    Nine,
    Ten,
    Jack,
    Queen,
    King,
}

/// The rank the page sees for a card's rank.
pub open spec fn shown_rank(r: crate::components::Rank) -> Rank {
    match r {
        crate::components::Rank::Ace => Rank::Ace,
        crate::components::Rank::Two => Rank::Two,
        crate::components::Rank::Three => Rank::Three,
        crate::components::Rank::Four => Rank::Four,
        crate::components::Rank::Five => Rank::Five,
        crate::components::Rank::Six => Rank::Six,
        crate::components::Rank::Seven => Rank::Seven,
        crate::components::Rank::Eight => Rank::Eight,
        crate::components::Rank::Nine => Rank::Nine,
        crate::components::Rank::Ten => Rank::Ten,
        crate::components::Rank::Jack => Rank::Jack,
        crate::components::Rank::Queen => Rank::Queen,
        crate::components::Rank::King => Rank::King,
    }
}

impl From<crate::components::Rank> for Rank {
    fn from(other_rank: crate::components::Rank) -> (r: Self) {
        match other_rank {
            crate::components::Rank::Ace => Rank::Ace,
            crate::components::Rank::Two => Rank::Two,
            crate::components::Rank::Three => Rank::Three,
            crate::components::Rank::Four => Rank::Four,
            crate::components::Rank::Five => Rank::Five,
            crate::components::Rank::Six => Rank::Six,
            crate::components::Rank::Seven => Rank::Seven,
            crate::components::Rank::Eight => Rank::Eight,
            crate::components::Rank::Nine => Rank::Nine,
            crate::components::Rank::Ten => Rank::Ten,
            crate::components::Rank::Jack => Rank::Jack,
            crate::components::Rank::Queen => Rank::Queen,
            crate::components::Rank::King => Rank::King,
        }
    }
}

impl vstd::std_specs::convert::FromSpecImpl<crate::components::Rank> for Rank {
    open spec fn obeys_from_spec() -> bool {
        true
    }

    open spec fn from_spec(v: crate::components::Rank) -> Self {
        shown_rank(v)
    }
}

/// The kind of a pile as the page sees it, without the index of the pile.
#[derive(Debug, Clone, Copy, PartialEq, Eq, Hash, Structural)]
pub enum StackType {
    Tableau,
    Foundation,
    Stock,
    Waste,
    Hand,
}

/// The kind of pile the page sees for a pile: its index is left out.
pub open spec fn shown_stack_type(st: crate::components::StackType) -> StackType {
    match st {
        crate::components::StackType::Tableau(_) => StackType::Tableau,
        crate::components::StackType::Foundation(_) => StackType::Foundation,
        crate::components::StackType::Stock => StackType::Stock,
        crate::components::StackType::Waste => StackType::Waste,
        crate::components::StackType::Hand => StackType::Hand,
    }
}

impl From<crate::components::StackType> for StackType {
    fn from(other_stack_type: crate::components::StackType) -> (r: Self) {
        match other_stack_type {
            crate::components::StackType::Tableau(_) => StackType::Tableau,
            crate::components::StackType::Foundation(_) => StackType::Foundation,
            crate::components::StackType::Stock => StackType::Stock,
            crate::components::StackType::Waste => StackType::Waste,
            crate::components::StackType::Hand => StackType::Hand,
        }
    }
}

impl vstd::std_specs::convert::FromSpecImpl<crate::components::StackType> for StackType {
    open spec fn obeys_from_spec() -> bool {
        true
    }

    open spec fn from_spec(v: crate::components::StackType) -> Self {
        shown_stack_type(v)
    }
}

/// The stage of the game as the page sees it.
#[derive(Debug, Clone, Copy, PartialEq, Eq, Structural)]
pub enum GameState {
    WaitingForPlayers,
    Dealing,
    Playing,
    GameOver,
    Won,
}

} // verus!
