//! When the game is won.

use vstd::prelude::*;

verus! {

/// The game is won when all 52 cards are on the foundations.
pub fn check_win_condition(foundation_card_count: usize) -> (b: bool)
    ensures
        b == (foundation_card_count == 52),
{
    foundation_card_count == 52
}

} // verus!
