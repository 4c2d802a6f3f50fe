//! The deck: the 52 cards, and shuffling them.

use vstd::prelude::*;
use rand::seq::SliceRandom;
use crate::components::card::{Card, Suit, Rank, ALL_SUITS, ALL_RANKS, suit_of_index, rank_of_value, suit_index, rank_value};

verus! {

/// The standard deck in creation order: suits Heart, Diamond, Club, Spade, each from
/// Ace to King, all face down.
pub open spec fn standard_deck() -> Seq<Card> {
    Seq::new(52, |i: int| Card { suit: suit_of_index(i / 13), rank: rank_of_value(i % 13 + 1), is_face_up: false })
}

/// The standard deck holds every card of every suit and rank exactly once, face down.
pub proof fn lemma_standard_deck_complete()
    ensures
        standard_deck().len() == 52,
        standard_deck().no_duplicates(),
        forall|i: int| 0 <= i < 52 ==> !(#[trigger] standard_deck()[i]).is_face_up,
        forall|s: Suit, r: Rank| #[trigger] standard_deck().contains(Card { suit: s, rank: r, is_face_up: false }),
{
    let d = standard_deck();
    assert forall|i: int, j: int| 0 <= i < j < 52 implies d[i] != d[j] by {
        if i / 13 == j / 13 {
            assert(i % 13 != j % 13);
            assert(rank_value(rank_of_value(i % 13 + 1)) == i % 13 + 1);
            assert(rank_value(rank_of_value(j % 13 + 1)) == j % 13 + 1);
        } else {
            assert(suit_index(suit_of_index(i / 13)) == i / 13);
            assert(suit_index(suit_of_index(j / 13)) == j / 13);
        }
    }
    assert forall|s: Suit, r: Rank| #[trigger] d.contains(Card { suit: s, rank: r, is_face_up: false }) by {
        let i = suit_index(s) * 13 + rank_value(r) - 1;
        assert(i / 13 == suit_index(s));
        assert(i % 13 == rank_value(r) - 1);
        assert(suit_of_index(suit_index(s)) == s);
        assert(rank_of_value(rank_value(r)) == r);
        assert(d[i] == Card { suit: s, rank: r, is_face_up: false });
    }
}

/// The random number generator of the current thread, from `rand`.
#[verifier::external_type_specification]
#[verifier::external_body]
pub struct ExThreadRng(rand::rngs::ThreadRng);

/// `rand::thread_rng`: a handle to the thread's random number generator. Nothing is
/// claimed of it; the source panics only if the system's random source cannot seed the
/// generator, which no argument can rule out.
#[verifier::external_body]
fn thread_rng() -> rand::rngs::ThreadRng {
    rand::thread_rng()
}

/// `SliceRandom::shuffle` from `rand` on a slice of cards. Claims: the cards afterwards
/// are the cards before, in some order (the source shuffles by swapping elements).
#[verifier::external_body]
fn shuffle_slice(deck: &mut Vec<Card>, rng: &mut rand::rngs::ThreadRng)
    ensures
        final(deck)@.to_multiset() == old(deck)@.to_multiset(),
{
    deck.as_mut_slice().shuffle(rng)
}

/// The 52 cards of a standard deck, face down, suit by suit and Ace to King.
pub fn create_standard_deck() -> (deck: Vec<Card>)
    ensures
        deck@ == standard_deck(),
{
    let mut deck: Vec<Card> = Vec::with_capacity(52);
    let mut si: usize = 0;
    while si < 4
        invariant
            si <= 4,
            deck@.len() == si * 13,
            forall|k: int| 0 <= k < deck@.len() ==> deck@[k] == standard_deck()[k],
        decreases 4 - si,
    {
        let suit = ALL_SUITS[si];
        assert(suit == suit_of_index(si as int));
        let mut ri: usize = 0;
        while ri < 13
            invariant
                si < 4,
                ri <= 13,
                suit == suit_of_index(si as int),
                deck@.len() == si * 13 + ri,
                forall|k: int| 0 <= k < deck@.len() ==> deck@[k] == standard_deck()[k],
            decreases 13 - ri,
        {
            let rank = ALL_RANKS[ri];
            assert(rank == rank_of_value(ri + 1));
            deck.push(Card { suit, rank, is_face_up: false });
            proof {
                let k = (si * 13 + ri) as int;
                assert(k / 13 == si as int) by (nonlinear_arith)
                    requires k == si * 13 + ri, ri < 13;
                assert(k % 13 == ri as int) by (nonlinear_arith)
                    requires k == si * 13 + ri, ri < 13;
            }
            ri = ri + 1;
        }
        si = si + 1;
    }
    assert(deck@ =~= standard_deck());
    deck
}

/// Shuffles the deck in place: afterwards it holds the same cards, in some order.
pub fn shuffle_deck(deck: &mut Vec<Card>)
    ensures
        final(deck)@.to_multiset() == old(deck)@.to_multiset(),
{
    let mut rng = thread_rng();
    shuffle_slice(deck, &mut rng);
}

} // verus!
