//! The system trait, also reachable from the crate root.

pub use crate::ecs::system::System;
