//! A verified entity-component world and the rules of Klondike solitaire.

pub mod entity;
pub mod components;
pub mod component;
pub mod ecs;
pub mod rules;
pub mod logic;
pub mod config;
pub mod app;
pub mod systems;
pub mod protocol;
pub mod network;
pub mod world;
pub mod system;
