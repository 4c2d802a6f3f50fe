//! The on-screen position of an entity, in whole pixels.

use vstd::prelude::*;

verus! {

/// A position on the board, in pixels from the top-left corner.
#[derive(Debug, Clone, Copy, PartialEq, Eq, Structural)]
pub struct Position {
    pub x: i32,
    pub y: i32,
}

} // verus!
