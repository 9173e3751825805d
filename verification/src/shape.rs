//! The shape of a hand: whether it can be evaluated, and how often each rank
//! and each suit occurs in it.

use vstd::prelude::*;
use crate::card::{suit_count, Card, Hand, Suit, SuitCounts};
use crate::category::HandError;
use crate::tally::{highest_ranks, rank_tally, suit_tally, top_ranks, total, RANK_SPACE};

verus! {

/// A hand can be evaluated when it has five to seven cards, all different.
pub open spec fn valid_hand(cards: Seq<Card>) -> bool {
    5 <= cards.len() <= 7 && cards.no_duplicates()
}

/// Whether the cards of a hand are all different.
pub fn all_different(cards: &Vec<Card>) -> (yes: bool)
    ensures
        yes == cards@.no_duplicates(),
{
    let mut i: usize = 0;
    while i < cards.len()
        invariant
            i <= cards.len(),
            forall|a: int, b: int| 0 <= a < i && 0 <= b < a ==> cards[a] != cards[b],
        decreases cards.len() - i,
    {
        let mut j: usize = 0;
        while j < i
            invariant
                j <= i < cards.len(),
                forall|b: int| 0 <= b < j ==> cards[i as int] != cards[b],
            decreases i - j,
        {
            if cards[i] == cards[j] {
                return false;
            }
            j = j + 1;
        }
        i = i + 1;
    }
    proof {
        assert forall|a: int, b: int|
            0 <= a < cards@.len() && 0 <= b < cards@.len() && a != b implies cards@[a]
            != cards@[b] by {
            if b < a {
                assert(cards[a] != cards[b]);
            } else {
                assert(cards[b] != cards[a]);
            }
        }
    }
    true
}

/// Whether a hand can be evaluated.
pub fn is_valid(hand: &Hand) -> (yes: bool)
    ensures
        yes == valid_hand(hand.cards@),
{
    5 <= hand.cards.len() && hand.cards.len() <= 7 && all_different(&hand.cards)
}

/// The frequency summaries of a valid hand.
#[derive(Clone, Debug, PartialEq, Eq)]
pub struct Shape {
    /// The tally of the ranks: entry `r` is the number of cards of rank `r`.
    pub ranks: Vec<usize>,
    /// The number of cards of each suit.
    pub suits: SuitCounts,
}

/// Analyses a hand: the tally of its ranks and the counts of its suits. A
/// hand of fewer than five or more than seven cards, or with a card that
/// occurs twice, is refused. The entries of the tally add up to the number of
/// cards.
pub fn analyze(hand: &Hand) -> (res: Result<Shape, HandError>)
    ensures
        match res {
            Ok(shape) => {
                &&& valid_hand(hand.cards@)
                &&& shape.ranks@ == rank_tally(hand@)
                &&& total(shape.ranks@, 256) == hand.cards.len()
                &&& forall|s: Suit| shape.suits.of(s) == suit_count(hand.cards@, s)
            },
            Err(e) => !valid_hand(hand.cards@) && e == HandError::InvalidHand,
        },
{
    if !is_valid(hand) {
        return Err(HandError::InvalidHand);
    }
    Ok(Shape { ranks: hand.rank_tally(), suits: hand.suits() })
}

/// The ranks that the hand holds in one suit, highest first, each listed
/// once.
pub fn suit_ranks(hand: &Hand, suit: Suit) -> (ranks: Vec<u8>)
    ensures
        ranks@ == top_ranks(suit_tally(hand@, suit), 256, 256),
{
    highest_ranks(&hand.suit_tally(suit), RANK_SPACE)
}

} // verus!
