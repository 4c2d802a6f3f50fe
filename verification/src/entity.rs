//! Entities: plain numeric identifiers, and a counter that hands them out.

use vstd::prelude::*;

verus! {

/// An entity of the game world: nothing but an identifier.
#[derive(PartialEq, Eq, PartialOrd, Ord, Hash, Clone, Copy, Debug, Structural)]
pub struct Entity(pub usize);

/// Hands out fresh entity identifiers, counting up from zero.
pub struct EntityManager {
    next_id: usize,
}

impl EntityManager {
    /// The identifier that the next call of `create_entity` hands out.
    pub closed spec fn next_id(&self) -> usize {
        self.next_id
    }

    pub fn new() -> (m: Self)
        ensures
            m.next_id() == 0,
    {
        EntityManager { next_id: 0 }
    }

    /// Returns the current counter as an entity and advances the counter by one
    /// (wrapping around at the top of `usize`, as an atomic counter does).
    pub fn create_entity(&mut self) -> (e: Entity)
        ensures
            e.0 == old(self).next_id(),
            final(self).next_id() == (if old(self).next_id() == usize::MAX { 0 } else { old(self).next_id() + 1 }),
    {
        let id = self.next_id;
        self.next_id = self.next_id.wrapping_add(1);
        Entity(id)
    }
}

impl Default for EntityManager {
    fn default() -> (m: Self)
        ensures
            m.next_id() == 0,
    {
        EntityManager::new()
    }
}

} // verus!
