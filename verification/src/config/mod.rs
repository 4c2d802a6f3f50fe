//! Configuration of the board.

pub mod layout;
