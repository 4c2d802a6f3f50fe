//! The world: the living entities and, per kind of component, which entity holds what.

use vstd::prelude::*;
use std::collections::HashSet;
use crate::entity::Entity;
use crate::component::{
    Component, ComponentKind, ComponentStorage, storage_view, remove_key, store_within, same_store,
};
use crate::components::{Card, StackInfo, StackType, Position, Player, DraggingInfo};
use crate::components::game_state::GameState;

verus! {

broadcast use vstd::std_specs::hash::group_hash_axioms;

#[verifier::ext_equal]
/// What a world holds: the living entities, the next fresh identifier, and one
/// store per kind of component (`None` while that kind is not registered).
pub struct WorldView {
    pub entities: Set<usize>,
    pub next_entity_id: nat,
    pub cards: Option<Map<usize, Card>>,
    pub stack_infos: Option<Map<usize, StackInfo>>,
    pub positions: Option<Map<usize, Position>>,
    pub game_states: Option<Map<usize, GameState>>,
    pub players: Option<Map<usize, Player>>,
    pub dragging_infos: Option<Map<usize, DraggingInfo>>,
}

impl WorldView {
    /// Every living entity is below the next fresh identifier, and only living
    /// entities hold components.
    pub open spec fn wf(self) -> bool {
        &&& self.entities.finite()
        &&& forall|id: usize| #[trigger] self.entities.contains(id) ==> id < self.next_entity_id
        &&& store_within(self.cards, self.entities)
        &&& store_within(self.stack_infos, self.entities)
        &&& store_within(self.positions, self.entities)
        &&& store_within(self.game_states, self.entities)
        &&& store_within(self.players, self.entities)
        &&& store_within(self.dragging_infos, self.entities)
    }

    /// The world without entity `id` and without every component it held.
    pub open spec fn without_entity(self, id: usize) -> WorldView {
        WorldView {
            entities: self.entities.remove(id),
            next_entity_id: self.next_entity_id,
            cards: remove_key(self.cards, id),
            stack_infos: remove_key(self.stack_infos, id),
            positions: remove_key(self.positions, id),
            game_states: remove_key(self.game_states, id),
            players: remove_key(self.players, id),
            dragging_infos: remove_key(self.dragging_infos, id),
        }
    }

    /// The world with `id` among its living entities, and the next fresh
    /// identifier moved past it if needed.
    pub open spec fn with_entity(self, id: usize) -> WorldView {
        WorldView {
            entities: self.entities.insert(id),
            next_entity_id: if id + 1 > self.next_entity_id { (id + 1) as nat } else { self.next_entity_id },
            ..self
        }
    }
}

/// The component of kind `T` that entity `id` holds in `w`, if any.
pub open spec fn component_of<T: Component>(w: WorldView, id: usize) -> Option<T> {
    match T::store_of(w) {
        Some(m) => if m.contains_key(id) { Some(m[id]) } else { None },
        None => None,
    }
}

/// Whether entity `id` holds a stack info of kind `st` in `w`.
pub open spec fn in_stack(w: WorldView, id: usize, st: StackType) -> bool {
    component_of::<StackInfo>(w, id) matches Some(si) && si.stack_type == st
}

/// The world with the component of kind `T` of entity `id` set to `c`
/// (the store of `T` must be there).
pub open spec fn with_component<T: Component>(w: WorldView, id: usize, c: T) -> WorldView {
    T::with_store(w, Some(T::store_of(w).unwrap().insert(id, c)))
}

/// The world with the component of kind `T` of entity `id` removed.
pub open spec fn without_component<T: Component>(w: WorldView, id: usize) -> WorldView {
    match T::store_of(w) {
        Some(m) => T::with_store(w, Some(m.remove(id))),
        None => w,
    }
}

/// A component given to a living entity is the one read back from it, and no other
/// entity's component of that kind changes.
pub proof fn lemma_get_after_add<T: Component>(w: WorldView, id: usize, c: T)
    requires
        w.wf(),
        T::store_of(w) is Some,
    ensures
        component_of::<T>(with_component(w, id, c), id) == Some(c),
        forall|j: usize| j != id ==> component_of::<T>(with_component(w, id, c), j) == component_of::<T>(w, j),
        with_component(w, id, c).entities == w.entities,
{
    T::lemma_store_laws(w, Some(T::store_of(w).unwrap().insert(id, c)), id);
}

/// A removed component is gone, and no other entity's component of that kind changes.
pub proof fn lemma_get_after_remove<T: Component>(w: WorldView, id: usize)
    requires
        w.wf(),
    ensures
        component_of::<T>(without_component::<T>(w, id), id) is None,
        forall|j: usize| j != id ==> component_of::<T>(without_component::<T>(w, id), j) == component_of::<T>(w, j),
        without_component::<T>(w, id).entities == w.entities,
{
    if let Some(m) = T::store_of(w) {
        T::lemma_store_laws(w, Some(m.remove(id)), id);
    }
}

/// A destroyed entity is no longer alive and holds no component of any kind; the other
/// entities keep theirs.
pub proof fn lemma_destroy_clears<T: Component>(w: WorldView, id: usize)
    requires
        w.wf(),
    ensures
        !w.without_entity(id).entities.contains(id),
        component_of::<T>(w.without_entity(id), id) is None,
        forall|j: usize| j != id ==> component_of::<T>(w.without_entity(id), j) == component_of::<T>(w, j),
        w.without_entity(id).wf(),
{
    T::lemma_store_laws(w, None, id);
    let w1 = w.without_entity(id);
    assert(store_within(w1.cards, w1.entities));
    assert(store_within(w1.stack_infos, w1.entities));
    assert(store_within(w1.positions, w1.entities));
    assert(store_within(w1.game_states, w1.entities));
    assert(store_within(w1.players, w1.entities));
    assert(store_within(w1.dragging_infos, w1.entities));
}

/// An entity that comes to life (as `create_entity` and `create_entity_with_id` make
/// one) holds no component of any kind.
pub proof fn lemma_created_entity_is_bare<T: Component>(w: WorldView, id: usize)
    requires
        w.wf(),
        !w.entities.contains(id),
    ensures
        component_of::<T>(w.with_entity(id), id) is None,
{
    T::lemma_store_laws(w, None, id);
}

/// A change to the components of one kind leaves every other kind alone: once entity
/// `id` is given a component of kind `T`, or loses its component of kind `T`, every
/// entity holds the same component of any other kind `U` as before.
pub proof fn lemma_other_kinds_unchanged<T: Component, U: Component>(w: WorldView, id: usize, c: T, j: usize)
    requires
        T::kind() != U::kind(),
    ensures
        T::store_of(w) is Some ==> component_of::<U>(with_component(w, id, c), j) == component_of::<U>(w, j),
        component_of::<U>(without_component::<T>(w, id), j) == component_of::<U>(w, j),
{
    if let Some(m) = T::store_of(w) {
        let s1 = Some(m.insert(id, c));
        T::lemma_store_laws(w, s1, id);
        assert(same_store(U::kind(), T::with_store(w, s1), w));
        U::lemma_store_of_kind(T::with_store(w, s1), w);
        let s2 = Some(m.remove(id));
        T::lemma_store_laws(w, s2, id);
        assert(same_store(U::kind(), T::with_store(w, s2), w));
        U::lemma_store_of_kind(T::with_store(w, s2), w);
    }
}

/// A kind registered for the first time holds nothing yet; a component then given to a
/// living entity is the one read back from it, and the components of every other kind
/// `U` stay as they were, for every entity.
pub proof fn lemma_register_then_add<T: Component, U: Component>(w: WorldView, id: usize, c: T, j: usize)
    requires
        w.wf(),
        T::store_of(w) is None,
        w.entities.contains(id),
        T::kind() != U::kind(),
    ensures
        ({
            let w1 = T::with_store(w, Some(Map::empty()));
            let w2 = with_component(w1, id, c);
            &&& w1.wf()
            &&& w1.entities == w.entities
            &&& forall|e: usize| #[trigger] component_of::<T>(w1, e) is None
            &&& T::store_of(w1) is Some
            &&& component_of::<T>(w2, id) == Some(c)
            &&& w2.entities == w.entities
            &&& component_of::<U>(w2, j) == component_of::<U>(w, j)
        }),
{
    let w1 = T::with_store(w, Some(Map::empty()));
    T::lemma_store_laws(w, Some(Map::empty()), id);
    assert(store_within(Some(Map::<usize, T>::empty()), w.entities));
    assert(same_store(U::kind(), w1, w));
    U::lemma_store_of_kind(w1, w);
    lemma_get_after_add::<T>(w1, id, c);
    lemma_other_kinds_unchanged::<T, U>(w1, id, c, j);
}

/// The next fresh identifier never goes down, and identifiers handed out stay below it:
/// when every identifier in `used` lies below it, every identifier in `used` and the one
/// an entity is made alive with (`with_entity`, as `create_entity` and
/// `create_entity_with_id` do) lies below it afterwards; destroying an entity or changing
/// the components of a kind leaves it as it is.
pub proof fn lemma_used_ids_stay_below<T: Component>(w: WorldView, used: Set<usize>, id: usize, s: Option<Map<usize, T>>)
    requires
        forall|u: usize| #[trigger] used.contains(u) ==> u < w.next_entity_id,
    ensures
        w.with_entity(id).next_entity_id >= w.next_entity_id,
        forall|u: usize| #[trigger] used.insert(id).contains(u) ==> u < w.with_entity(id).next_entity_id,
        w.without_entity(id).next_entity_id == w.next_entity_id,
        T::with_store(w, s).next_entity_id == w.next_entity_id,
{
    T::lemma_store_laws(w, s, id);
}

/// The identifier `create_entity` hands out is larger than every identifier handed out
/// before (each below the next fresh identifier, see `lemma_used_ids_stay_below`), so it is
/// none of them, and no living entity has it.
pub proof fn lemma_created_id_is_fresh(w: WorldView, used: Set<usize>)
    requires
        w.wf(),
        w.next_entity_id < usize::MAX,
        forall|u: usize| #[trigger] used.contains(u) ==> u < w.next_entity_id,
    ensures
        forall|u: usize| #[trigger] used.contains(u) ==> u < w.next_entity_id as usize,
        !used.contains(w.next_entity_id as usize),
        !w.entities.contains(w.next_entity_id as usize),
{
}

/// The game world: living entities and their components.
pub struct World {
    entities: HashSet<usize>,
    next_entity_id: usize,
    cards: Option<ComponentStorage<Card>>,
    stack_infos: Option<ComponentStorage<StackInfo>>,
    positions: Option<ComponentStorage<Position>>,
    game_states: Option<ComponentStorage<GameState>>,
    players: Option<ComponentStorage<Player>>,
    dragging_infos: Option<ComponentStorage<DraggingInfo>>,
}

impl View for World {
    type V = WorldView;

    closed spec fn view(&self) -> WorldView {
        WorldView {
            entities: self.entities@,
            next_entity_id: self.next_entity_id as nat,
            cards: storage_view(self.cards),
            stack_infos: storage_view(self.stack_infos),
            positions: storage_view(self.positions),
            game_states: storage_view(self.game_states),
            players: storage_view(self.players),
            dragging_infos: storage_view(self.dragging_infos),
        }
    }
}

impl World {
    /// The world is well formed (see `WorldView::wf`).
    pub open spec fn wf(&self) -> bool {
        self@.wf()
    }

    /// A world with no entities and no registered kinds of component.
    pub fn new() -> (w: Self)
        ensures
            w@.entities == Set::<usize>::empty(),
            w@.next_entity_id == 0,
            w@.cards is None,
            w@.stack_infos is None,
            w@.positions is None,
            w@.game_states is None,
            w@.players is None,
            w@.dragging_infos is None,
            w.wf(),
    {
        World {
            entities: HashSet::new(),
            next_entity_id: 0,
            cards: None,
            stack_infos: None,
            positions: None,
            game_states: None,
            players: None,
            dragging_infos: None,
        }
    }

    /// The identifier that `create_entity` hands out next.
    pub fn next_entity_id(&self) -> (n: usize)
        ensures
            n == self@.next_entity_id,
    {
        self.next_entity_id
    }

    /// How many entities are alive.
    pub fn entity_count(&self) -> (n: usize)
        ensures
            n == self@.entities.len(),
    {
        self.entities.len()
    }

    /// Creates a fresh entity: the next identifier, which no living entity has.
    pub fn create_entity(&mut self) -> (e: Entity)
        requires
            old(self).wf(),
            old(self)@.next_entity_id < usize::MAX,
        ensures
            e.0 == old(self)@.next_entity_id,
            !old(self)@.entities.contains(e.0),
            final(self)@ == old(self)@.with_entity(e.0),
            final(self).wf(),
    {
        let entity_id = self.next_entity_id;
        self.next_entity_id = self.next_entity_id + 1;
        let entity = Entity(entity_id);
        self.entities.insert(entity_id);
        proof {
            assert(self@ =~= old(self)@.with_entity(entity_id));
        }
        entity
    }

    /// Makes `entity` a living entity, whatever its identifier (it may already be alive).
    pub fn create_entity_with_id(&mut self, entity: Entity)
        requires
            old(self).wf(),
            entity.0 < usize::MAX,
        ensures
            final(self)@ == old(self)@.with_entity(entity.0),
            final(self).wf(),
    {
        self.entities.insert(entity.0);
        if self.next_entity_id < entity.0 + 1 {
            self.next_entity_id = entity.0 + 1;
        }
        proof {
            assert(self@ =~= old(self)@.with_entity(entity.0));
        }
    }

    /// Whether `entity` is alive.
    pub fn is_entity_alive(&self, entity: Entity) -> (b: bool)
        ensures
            b == self@.entities.contains(entity.0),
    {
        self.entities.contains(&entity.0)
    }

    /// Destroys `entity` and every component it holds; returns whether it was alive.
    pub fn destroy_entity(&mut self, entity: Entity) -> (b: bool)
        requires
            old(self).wf(),
        ensures
            b == old(self)@.entities.contains(entity.0),
            final(self)@ == (if b { old(self)@.without_entity(entity.0) } else { old(self)@ }),
            final(self).wf(),
    {
        if self.entities.remove(&entity.0) {
            if let Some(s) = &mut self.cards {
                s.remove(entity);
            }
            if let Some(s) = &mut self.stack_infos {
                s.remove(entity);
            }
            if let Some(s) = &mut self.positions {
                s.remove(entity);
            }
            if let Some(s) = &mut self.game_states {
                s.remove(entity);
            }
            if let Some(s) = &mut self.players {
                s.remove(entity);
            }
            if let Some(s) = &mut self.dragging_infos {
                s.remove(entity);
            }
            proof {
                assert(self@ =~= old(self)@.without_entity(entity.0));
            }
            true
        } else {
            proof {
                assert(self.entities@ =~= old(self).entities@);
            }
            false
        }
    }

    /// Registers the kind `T`: its store becomes empty (a store that was there is replaced).
    pub fn register_component<T: Component>(&mut self)
        requires
            old(self).wf(),
        ensures
            final(self)@ == T::with_store(old(self)@, Some(Map::empty())),
            final(self).wf(),
    {
        proof {
            T::lemma_store_laws(self@, Some(Map::empty()), 0);
        }
        let s = T::storage_mut(self);
        *s = Some(ComponentStorage::new());
    }

    /// Gives `entity` the component `component` (replacing the one of its kind),
    /// if `entity` is alive; does nothing otherwise.
    pub fn add_component<T: Component>(&mut self, entity: Entity, component: T)
        requires
            old(self).wf(),
            old(self)@.entities.contains(entity.0) ==> T::store_of(old(self)@) is Some,
        ensures
            final(self)@ == (if old(self)@.entities.contains(entity.0) {
                with_component(old(self)@, entity.0, component)
            } else {
                old(self)@
            }),
            final(self).wf(),
    {
        if !self.is_entity_alive(entity) {
            return;
        }
        proof {
            T::lemma_store_laws(self@, Some(T::store_of(self@).unwrap().insert(entity.0, component)), 0);
            T::lemma_store_laws(self@, None, 0);
        }
        let s = T::storage_mut(self);
        match s {
            Some(storage) => {
                storage.insert(entity, component);
            },
            None => {},
        }
    }

    /// The component of kind `T` that `entity` holds, if any.
    pub fn get_component<T: Component>(&self, entity: Entity) -> (r: Option<&T>)
        ensures
            match r {
                Some(c) => component_of::<T>(self@, entity.0) == Some(*c),
                None => component_of::<T>(self@, entity.0) is None,
            },
    {
        match T::storage(self) {
            Some(storage) => storage.get(entity),
            None => None,
        }
    }

    /// The component of kind `T` that `entity` holds, for writing, if `entity` is alive and holds one.
    pub fn get_component_mut<T: Component>(&mut self, entity: Entity) -> (r: Option<&mut T>)
        requires
            old(self).wf(),
        ensures
            match r {
                Some(c) => component_of::<T>(old(self)@, entity.0) == Some(*c)
                    && final(self)@ == with_component(old(self)@, entity.0, *final(c)),
                None => component_of::<T>(old(self)@, entity.0) is None
                    && final(self)@ == old(self)@,
            },
            final(self).wf(),
    {
        proof {
            T::lemma_store_laws(self@, None, 0);
            T::lemma_store_laws(self@, T::store_of(self@), 0);
        }
        if !self.is_entity_alive(entity) {
            return None;
        }
        let ghost w0 = self@;
        let s = T::storage_mut(self);
        match s {
            Some(storage) => {
                let r = storage.get_mut(entity);
                proof {
                    T::lemma_with_store_wf(w0);
                }
                r
            },
            None => None,
        }
    }

    /// Removes the component of kind `T` from `entity` and returns it, if it held one.
    pub fn remove_component<T: Component>(&mut self, entity: Entity) -> (r: Option<T>)
        requires
            old(self).wf(),
        ensures
            r == component_of::<T>(old(self)@, entity.0),
            final(self)@ == without_component::<T>(old(self)@, entity.0),
            final(self).wf(),
    {
        proof {
            T::lemma_store_laws(self@, None, 0);
            if let Some(m) = T::store_of(self@) {
                T::lemma_store_laws(self@, Some(m.remove(entity.0)), 0);
            }
        }
        let s = T::storage_mut(self);
        match s {
            Some(storage) => storage.remove(entity),
            None => None,
        }
    }

    /// Every living entity that holds a component of kind `T`, each once.
    pub fn get_all_entities_with_component<T: Component>(&self) -> (r: Vec<Entity>)
        ensures
            r@.no_duplicates(),
            forall|e: Entity| #[trigger] r@.contains(e) <==> (component_of::<T>(self@, e.0) is Some
                && self@.entities.contains(e.0)),
    {
        match T::storage(self) {
            Some(storage) => {
                let all = storage.entities();
                let mut r: Vec<Entity> = Vec::new();
                let n = all.len();
                let mut i: usize = 0;
                while i < n
                    invariant
                        n == all@.len(),
                        i <= n,
                        all@.no_duplicates(),
                        r@.no_duplicates(),
                        forall|e: Entity| #[trigger] r@.contains(e) <==> (exists|j: int| 0 <= j < i && all@[j] == e
                            && self@.entities.contains(e.0)),
                    decreases n - i,
                {
                    let e = all[i];
                    if self.is_entity_alive(e) {
                        proof {
                            assert forall|j: int| 0 <= j < i implies all@[j] != e by {
                                assert(all@[i as int] == e);
                            }
                            if r@.contains(e) {
                                let j = choose|j: int| 0 <= j < i && all@[j] == e && self@.entities.contains(e.0);
                                assert(false);
                            }
                        }
                        let ghost r0 = r@;
                        r.push(e);
                        proof {
                            assert(r@ == r0.push(e));
                            assert forall|a: int, b: int| 0 <= a < b < r@.len() implies r@[a] != r@[b] by {
                                if b == r@.len() - 1 {
                                    assert(r0.contains(r0[a]));
                                }
                            }
                        }
                        proof {
                            assert forall|f: Entity| #[trigger] r@.contains(f) <==> (exists|j: int| 0 <= j < i + 1 && all@[j] == f
                                && self@.entities.contains(f.0)) by {
                                if f == e {
                                    assert(all@[i as int] == f);
                                    assert(r@[r@.len() - 1] == f);
                                } else {
                                    if r@.contains(f) {
                                        let k = choose|k: int| 0 <= k < r@.len() && r@[k] == f;
                                        assert(r0[k] == f);
                                        assert(r0.contains(f));
                                    }
                                    if exists|j: int| 0 <= j < i + 1 && all@[j] == f && self@.entities.contains(f.0) {
                                        let j = choose|j: int| 0 <= j < i + 1 && all@[j] == f && self@.entities.contains(f.0);
                                        assert(j != i);
                                        assert(r0.contains(f));
                                        let k = choose|k: int| 0 <= k < r0.len() && r0[k] == f;
                                        assert(r@[k] == f);
                                    }
                                }
                            }
                        }
                    } else {
                        proof {
                            assert forall|f: Entity| #[trigger] r@.contains(f) <==> (exists|j: int| 0 <= j < i + 1 && all@[j] == f
                                && self@.entities.contains(f.0)) by {
                                if exists|j: int| 0 <= j < i + 1 && all@[j] == f && self@.entities.contains(f.0) {
                                    let j = choose|j: int| 0 <= j < i + 1 && all@[j] == f && self@.entities.contains(f.0);
                                    if j == i {
                                        assert(false);
                                    }
                                }
                            }
                        }
                    }
                    i = i + 1;
                }
                proof {
                    assert forall|e: Entity| #[trigger] r@.contains(e) <==> (component_of::<T>(self@, e.0) is Some
                        && self@.entities.contains(e.0)) by {
                        if component_of::<T>(self@, e.0) is Some && self@.entities.contains(e.0) {
                            assert(all@.contains(e));
                            let j = choose|j: int| 0 <= j < all@.len() && all@[j] == e;
                            assert(exists|j: int| 0 <= j < n && all@[j] == e && self@.entities.contains(e.0));
                        }
                        if r@.contains(e) {
                            let j = choose|j: int| 0 <= j < n && all@[j] == e && self@.entities.contains(e.0);
                            assert(all@.contains(e));
                        }
                    }
                }
                r
            },
            None => Vec::new(),
        }
    }

    /// The living entity with the smallest identifier whose stack info is of kind
    /// `stack_type`, if there is one.
    pub fn find_entity_by_stack_type(&self, stack_type: StackType) -> (r: Option<Entity>)
        ensures
            match r {
                Some(e) => self@.entities.contains(e.0) && in_stack(self@, e.0, stack_type)
                    && forall|id: usize| self@.entities.contains(id) && in_stack(self@, id, stack_type) ==> e.0 <= id,
                None => forall|id: usize| self@.entities.contains(id) ==> !in_stack(self@, id, stack_type),
            },
    {
        let entities = self.get_all_entities_with_component::<StackInfo>();
        let n = entities.len();
        let mut found: Option<Entity> = None;
        let mut i: usize = 0;
        while i < n
            invariant
                n == entities@.len(),
                i <= n,
                forall|e: Entity| #[trigger] entities@.contains(e) <==> (component_of::<StackInfo>(self@, e.0) is Some
                    && self@.entities.contains(e.0)),
                match found {
                    Some(f) => self@.entities.contains(f.0) && in_stack(self@, f.0, stack_type)
                        && forall|j: int| 0 <= j < i && in_stack(self@, #[trigger] entities@[j].0, stack_type) ==> f.0 <= entities@[j].0,
                    None => forall|j: int| 0 <= j < i ==> !in_stack(self@, #[trigger] entities@[j].0, stack_type),
                },
            decreases n - i,
        {
            let e = entities[i];
            assert(entities@.contains(e));
            if let Some(stack_info) = self.get_component::<StackInfo>(e) {
                if stack_info.stack_type == stack_type {
                    let smaller = match found {
                        None => true,
                        Some(f) => e.0 < f.0,
                    };
                    if smaller {
                        found = Some(e);
                    }
                }
            }
            i = i + 1;
        }
        proof {
            assert forall|id: usize| self@.entities.contains(id) && in_stack(self@, id, stack_type) implies (match found {
                Some(f) => f.0 <= id,
                None => false,
            }) by {
                assert(entities@.contains(Entity(id)));
                let j = choose|j: int| 0 <= j < n && entities@[j] == Entity(id);
                assert(entities@[j].0 == id);
            }
        }
        found
    }

    /// The storage of kind `T`, if registered.
    pub fn storage<T: Component>(&self) -> (r: Option<&ComponentStorage<T>>)
        ensures
            match r {
                Some(s) => T::store_of(self@) == Some(s@),
                None => T::store_of(self@) is None,
            },
    {
        match T::storage(self) {
            Some(s) => Some(s),
            None => None,
        }
    }
}

impl Component for Card {
    open spec fn kind() -> ComponentKind {
        ComponentKind::Card
    }

    open spec fn store_of(w: WorldView) -> Option<Map<usize, Self>> {
        w.cards
    }

    open spec fn with_store(w: WorldView, s: Option<Map<usize, Self>>) -> WorldView {
        WorldView { cards: s, ..w }
    }

    proof fn lemma_store_laws(w: WorldView, s: Option<Map<usize, Self>>, id: usize) {
    }

    proof fn lemma_store_of_kind(a: WorldView, b: WorldView) {
    }

    proof fn lemma_with_store_wf(w: WorldView) {
    }

    fn storage(world: &World) -> (r: &Option<ComponentStorage<Self>>) {
        &world.cards
    }

    fn storage_mut(world: &mut World) -> (r: &mut Option<ComponentStorage<Self>>) {
        &mut world.cards
    }
}

impl Component for StackInfo {
    open spec fn kind() -> ComponentKind {
        ComponentKind::StackInfo
    }

    open spec fn store_of(w: WorldView) -> Option<Map<usize, Self>> {
        w.stack_infos
    }

    open spec fn with_store(w: WorldView, s: Option<Map<usize, Self>>) -> WorldView {
        WorldView { stack_infos: s, ..w }
    }

    proof fn lemma_store_laws(w: WorldView, s: Option<Map<usize, Self>>, id: usize) {
    }

    proof fn lemma_store_of_kind(a: WorldView, b: WorldView) {
    }

    proof fn lemma_with_store_wf(w: WorldView) {
    }

    fn storage(world: &World) -> (r: &Option<ComponentStorage<Self>>) {
        &world.stack_infos
    }

    fn storage_mut(world: &mut World) -> (r: &mut Option<ComponentStorage<Self>>) {
        &mut world.stack_infos
    }
}

impl Component for Position {
    open spec fn kind() -> ComponentKind {
        ComponentKind::Position
    }

    open spec fn store_of(w: WorldView) -> Option<Map<usize, Self>> {
        w.positions
    }

    open spec fn with_store(w: WorldView, s: Option<Map<usize, Self>>) -> WorldView {
        WorldView { positions: s, ..w }
    }

    proof fn lemma_store_laws(w: WorldView, s: Option<Map<usize, Self>>, id: usize) {
    }

    proof fn lemma_store_of_kind(a: WorldView, b: WorldView) {
    }

    proof fn lemma_with_store_wf(w: WorldView) {
    }

    fn storage(world: &World) -> (r: &Option<ComponentStorage<Self>>) {
        &world.positions
    }

    fn storage_mut(world: &mut World) -> (r: &mut Option<ComponentStorage<Self>>) {
        &mut world.positions
    }
}

impl Component for GameState {
    open spec fn kind() -> ComponentKind {
        ComponentKind::GameState
    }

    open spec fn store_of(w: WorldView) -> Option<Map<usize, Self>> {
        w.game_states
    }

    open spec fn with_store(w: WorldView, s: Option<Map<usize, Self>>) -> WorldView {
        WorldView { game_states: s, ..w }
    }

    proof fn lemma_store_laws(w: WorldView, s: Option<Map<usize, Self>>, id: usize) {
    }

    proof fn lemma_store_of_kind(a: WorldView, b: WorldView) {
    }

    proof fn lemma_with_store_wf(w: WorldView) {
    }

    fn storage(world: &World) -> (r: &Option<ComponentStorage<Self>>) {
        &world.game_states
    }

    fn storage_mut(world: &mut World) -> (r: &mut Option<ComponentStorage<Self>>) {
        &mut world.game_states
    }
}

impl Component for Player {
    open spec fn kind() -> ComponentKind {
        ComponentKind::Player
    }

    open spec fn store_of(w: WorldView) -> Option<Map<usize, Self>> {
        w.players
    }

    open spec fn with_store(w: WorldView, s: Option<Map<usize, Self>>) -> WorldView {
        WorldView { players: s, ..w }
    }

    proof fn lemma_store_laws(w: WorldView, s: Option<Map<usize, Self>>, id: usize) {
    }

    proof fn lemma_store_of_kind(a: WorldView, b: WorldView) {
    }

    proof fn lemma_with_store_wf(w: WorldView) {
    }

    fn storage(world: &World) -> (r: &Option<ComponentStorage<Self>>) {
        &world.players
    }

    fn storage_mut(world: &mut World) -> (r: &mut Option<ComponentStorage<Self>>) {
        &mut world.players
    }
}

impl Component for DraggingInfo {
    open spec fn kind() -> ComponentKind {
        ComponentKind::DraggingInfo
    }

    open spec fn store_of(w: WorldView) -> Option<Map<usize, Self>> {
        w.dragging_infos
    }

    open spec fn with_store(w: WorldView, s: Option<Map<usize, Self>>) -> WorldView {
        WorldView { dragging_infos: s, ..w }
    }

    proof fn lemma_store_laws(w: WorldView, s: Option<Map<usize, Self>>, id: usize) {
    }

    proof fn lemma_store_of_kind(a: WorldView, b: WorldView) {
    }

    proof fn lemma_with_store_wf(w: WorldView) {
    }

    fn storage(world: &World) -> (r: &Option<ComponentStorage<Self>>) {
        &world.dragging_infos
    }

    fn storage_mut(world: &mut World) -> (r: &mut Option<ComponentStorage<Self>>) {
        &mut world.dragging_infos
    }
}

} // verus!
