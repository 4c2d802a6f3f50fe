//! Where a card lies: the kind of pile and its place in that pile.

use vstd::prelude::*;

verus! {

/// The kind of pile a card belongs to; tableau and foundation piles carry their index.
#[derive(Clone, Copy, Debug, PartialEq, Eq, Hash, Structural)]
pub enum StackType {
    Tableau(u8),
    Foundation(u8),
    Stock,
    Waste,
    Hand,
}

/// The pile a card lies in, and its position in that pile (0 is the bottom card).
#[derive(Debug, Clone, Copy, PartialEq, Eq, Structural)]
pub struct StackInfo {
    pub stack_type: StackType,
    pub position_in_stack: u8,
}

impl StackInfo {
    pub fn new(stack_type: StackType, position_in_stack: u8) -> (s: Self)
        ensures
            s.stack_type == stack_type,
            s.position_in_stack == position_in_stack,
    {
        StackInfo { stack_type, position_in_stack }
    }
}

/// The pile a kind of pile from the page stands for: tableau and foundation piles are
/// taken to be the first one.
pub open spec fn pile_of_shown(st: crate::component::StackType) -> StackType {
    match st {
        crate::component::StackType::Tableau => StackType::Tableau(0),
        crate::component::StackType::Foundation => StackType::Foundation(0),
        crate::component::StackType::Stock => StackType::Stock,
        crate::component::StackType::Waste => StackType::Waste,
        crate::component::StackType::Hand => StackType::Hand,
    }
}

impl From<crate::component::StackType> for StackType {
    fn from(other: crate::component::StackType) -> (r: Self) {
        match other {
            crate::component::StackType::Tableau => StackType::Tableau(0),
            crate::component::StackType::Foundation => StackType::Foundation(0),
            crate::component::StackType::Stock => StackType::Stock,
            crate::component::StackType::Waste => StackType::Waste,
            crate::component::StackType::Hand => StackType::Hand,
        }
    }
}

impl vstd::std_specs::convert::FromSpecImpl<crate::component::StackType> for StackType {
    open spec fn obeys_from_spec() -> bool {
        true
    }

    open spec fn from_spec(v: crate::component::StackType) -> Self {
        pile_of_shown(v)
    }
}

} // verus!
