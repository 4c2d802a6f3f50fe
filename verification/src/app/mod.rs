//! The game's handlers, without the browser: what a click, a drag or a message does to the world.

pub mod layout_calculator;
pub mod stock_handler;
pub mod state_handler;
pub mod renderer;
pub mod event_handler;
pub mod drag_apply_handler;
pub mod drag_handler;
pub mod state_getter;
pub mod init_handler;
pub mod network_receiver;
pub mod network_handler;
