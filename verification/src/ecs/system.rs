//! Systems: logic that runs over the whole world.

use vstd::prelude::*;
use crate::ecs::world::World;

verus! {

/// A system runs over the world and may change it, keeping it well formed.
pub trait System {
    fn run(&mut self, world: &mut World)
        requires
            old(world).wf(),
        ensures
            final(world).wf(),
    ;
}

} // verus!
