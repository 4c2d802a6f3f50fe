//! The world, also reachable from the crate root.

pub use crate::ecs::world::{World, WorldView};
