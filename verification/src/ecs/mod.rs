//! The entity-component-system core: the world and the system trait.

pub mod world;
pub mod system;

pub use crate::entity;
pub use crate::component;
pub use crate::component::Component;
pub use crate::entity::Entity;
pub use system::System;
pub use world::World;
