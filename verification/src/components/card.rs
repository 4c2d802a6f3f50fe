//! Playing cards: suits, ranks and the card component.

use vstd::prelude::*;

verus! {

/// The four suits.
#[derive(Debug, Clone, Copy, PartialEq, Eq, Hash, Structural)]
pub enum Suit {
    Heart,
    Diamond,
    Club,
    Spade,
}

/// The thirteen ranks, ordered from Ace (1) up to King (13).
#[derive(Debug, Clone, Copy, PartialEq, Eq, PartialOrd, Ord, Hash, Structural)]
pub enum Rank {
    Ace,
    Two,
    Three,
    Four,
    Five,
    Six,
    Seven,
    Eight,
    Nine,
    Ten,
    Jack,
    Queen,
    King,
}

/// The numeric value of a rank: Ace is 1, King is 13.
pub open spec fn rank_value(r: Rank) -> int {
    match r {
        Rank::Ace => 1,
        Rank::Two => 2,
        Rank::Three => 3,
        Rank::Four => 4,
        Rank::Five => 5,
        Rank::Six => 6,
        Rank::Seven => 7,
        Rank::Eight => 8,
        Rank::Nine => 9,
        Rank::Ten => 10,
        Rank::Jack => 11,
        Rank::Queen => 12,
        Rank::King => 13,
    }
}

/// The rank whose value is `v` (1 to 13).
pub open spec fn rank_of_value(v: int) -> Rank
    recommends
        1 <= v <= 13,
{
    if v <= 1 {
        Rank::Ace
    } else if v == 2 {
        Rank::Two
    } else if v == 3 {
        Rank::Three
    } else if v == 4 {
        Rank::Four
    } else if v == 5 {
        Rank::Five
    } else if v == 6 {
        Rank::Six
    } else if v == 7 {
        Rank::Seven
    } else if v == 8 {
        Rank::Eight
    } else if v == 9 {
        Rank::Nine
    } else if v == 10 {
        Rank::Ten
    } else if v == 11 {
        Rank::Jack
    } else if v == 12 {
        Rank::Queen
    } else {
        Rank::King
    }
}

/// The suit at index `i` of the standard suit order (Heart, Diamond, Club, Spade).
pub open spec fn suit_of_index(i: int) -> Suit {
    if i <= 0 {
        Suit::Heart
    } else if i == 1 {
        Suit::Diamond
    } else if i == 2 {
        Suit::Club
    } else {
        Suit::Spade
    }
}

/// The index of a suit in the standard suit order.
pub open spec fn suit_index(s: Suit) -> int {
    match s {
        Suit::Heart => 0,
        Suit::Diamond => 1,
        Suit::Club => 2,
        Suit::Spade => 3,
    }
}

impl Rank {
    /// The numeric value of the rank: Ace is 1, King is 13.
    pub fn value(&self) -> (v: u8)
        ensures
            v == rank_value(*self),
            1 <= v <= 13,
    {
        match self {
            Rank::Ace => 1,
            Rank::Two => 2,
            Rank::Three => 3,
            Rank::Four => 4,
            Rank::Five => 5,
            Rank::Six => 6,
            Rank::Seven => 7,
            Rank::Eight => 8,
            Rank::Nine => 9,
            Rank::Ten => 10,
            Rank::Jack => 11,
            Rank::Queen => 12,
            Rank::King => 13,
        }
    }
}

/// A playing card, face up or face down.
#[derive(Debug, Clone, Copy, PartialEq, Eq, Hash, Structural)]
pub struct Card {
    pub suit: Suit,
    pub rank: Rank,
    pub is_face_up: bool,
}

/// All suits, in the standard order.
pub const ALL_SUITS: [Suit; 4] = [Suit::Heart, Suit::Diamond, Suit::Club, Suit::Spade];

/// All ranks, from Ace to King.
pub const ALL_RANKS: [Rank; 13] = [
    Rank::Ace,
    Rank::Two,
    Rank::Three,
    Rank::Four,
    Rank::Five,
    Rank::Six,
    Rank::Seven,
    Rank::Eight,
    Rank::Nine,
    Rank::Ten,
    Rank::Jack,
    Rank::Queen,
    Rank::King,
];

} // verus!
