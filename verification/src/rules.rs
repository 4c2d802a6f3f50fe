//! The rules of Klondike solitaire, stated over cards alone.

use vstd::prelude::*;
use crate::components::card::{Card, Suit, Rank, rank_value};

verus! {

/// The colour of a suit.
#[derive(Debug, PartialEq, Eq, Clone, Copy, Structural)]
pub enum CardColor {
    Red,
    Black,
}

/// Hearts and diamonds are red; clubs and spades are black.
pub open spec fn color_of(suit: Suit) -> CardColor {
    match suit {
        Suit::Heart | Suit::Diamond => CardColor::Red,
        Suit::Club | Suit::Spade => CardColor::Black,
    }
}

/// The card behind an optional reference.
pub open spec fn card_opt(c: Option<&Card>) -> Option<Card> {
    match c {
        Some(r) => Some(*r),
        None => None,
    }
}

/// A foundation of suit `suit` whose top card is `top` (`None`: empty) takes `card`:
/// the suits agree, and the card is an Ace on an empty foundation or one rank above the top.
pub open spec fn foundation_accepts(card: Card, top: Option<Card>, suit: Suit) -> bool {
    &&& card.suit == suit
    &&& match top {
        None => card.rank == Rank::Ace,
        Some(t) => rank_value(card.rank) == rank_value(t.rank) + 1,
    }
}

/// A tableau pile whose top card is `top` (`None`: empty) takes `card`: a King on an
/// empty pile, otherwise a card of the other colour and one rank below the top.
pub open spec fn tableau_accepts(card: Card, top: Option<Card>) -> bool {
    match top {
        None => card.rank == Rank::King,
        Some(t) => color_of(card.suit) != color_of(t.suit) && rank_value(card.rank) == rank_value(t.rank) - 1,
    }
}

impl CardColor {
    /// The colour of `suit`.
    pub fn from_suit(suit: Suit) -> (c: Self)
        ensures
            c == color_of(suit),
    {
        match suit {
            Suit::Heart | Suit::Diamond => CardColor::Red,
            Suit::Club | Suit::Spade => CardColor::Black,
        }
    }
}

/// Whether `card_to_move` may go onto a foundation of suit `foundation_suit`
/// whose top card is `foundation_top_card`.
pub fn can_move_to_foundation(card_to_move: &Card, foundation_top_card: Option<&Card>, foundation_suit: Suit) -> (b: bool)
    ensures
        b == foundation_accepts(*card_to_move, card_opt(foundation_top_card), foundation_suit),
{
    if card_to_move.suit != foundation_suit {
        return false;
    }
    match foundation_top_card {
        None => card_to_move.rank == Rank::Ace,
        Some(top_card) => (card_to_move.rank.value() as usize) == (top_card.rank.value() as usize) + 1,
    }
}

/// Whether `card_to_move` may go onto a tableau pile whose top card is `tableau_top_card`.
pub fn can_move_to_tableau(card_to_move: &Card, tableau_top_card: Option<&Card>) -> (b: bool)
    ensures
        b == tableau_accepts(*card_to_move, card_opt(tableau_top_card)),
{
    match tableau_top_card {
        None => card_to_move.rank == Rank::King,
        Some(top_card) => {
            let move_color = CardColor::from_suit(card_to_move.suit);
            let target_color = CardColor::from_suit(top_card.suit);
            if move_color == target_color {
                return false;
            }
            (card_to_move.rank.value() as usize) == (top_card.rank.value() as usize) - 1
        },
    }
}

/// A card can be dealt from the stock unless the stock is empty.
pub fn can_deal_from_stock(stock_is_empty: bool) -> (b: bool)
    ensures
        b == !stock_is_empty,
{
    !stock_is_empty
}

/// The waste can be turned back into the stock when the stock is empty and the waste is not.
pub fn can_reset_stock_from_waste(stock_is_empty: bool, waste_is_empty: bool) -> (b: bool)
    ensures
        b == (stock_is_empty && !waste_is_empty),
{
    stock_is_empty && !waste_is_empty
}

/// A card from the waste moves to a tableau pile by the tableau rule.
pub fn can_move_from_waste_to_tableau(waste_top_card: &Card, tableau_top_card: Option<&Card>) -> (b: bool)
    ensures
        b == tableau_accepts(*waste_top_card, card_opt(tableau_top_card)),
{
    can_move_to_tableau(waste_top_card, tableau_top_card)
}

/// A card from the waste moves to a foundation by the foundation rule.
pub fn can_move_from_waste_to_foundation(
    waste_top_card: &Card,
    foundation_top_card: Option<&Card>,
    foundation_suit: Suit,
) -> (b: bool)
    ensures
        b == foundation_accepts(*waste_top_card, card_opt(foundation_top_card), foundation_suit),
{
    can_move_to_foundation(waste_top_card, foundation_top_card, foundation_suit)
}

/// The game is won when all 52 cards are on the foundations.
pub fn check_win_condition(foundation_card_count: usize) -> (b: bool)
    ensures
        b == (foundation_card_count == 52),
{
    foundation_card_count == 52
}

} // verus!
