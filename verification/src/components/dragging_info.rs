//! What is remembered about a card while it is being dragged.

use vstd::prelude::*;
use crate::entity::Entity;

verus! {

/// Where a dragged card came from (its pile, its place there and its position, in
/// pixels) and where in the card the pointer grabbed it.
#[derive(Clone, Copy, Debug, PartialEq, Eq, Structural)]
pub struct DraggingInfo {
    pub original_position_in_stack: usize,
    pub original_stack_entity: Entity,
    pub original_x: i32,
    pub original_y: i32,
    pub offset_x: i64,
    pub offset_y: i64,
}

} // verus!
