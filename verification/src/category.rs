//! Hand categories and evaluated hands.

use vstd::prelude::*;

verus! {

/// The categories of poker hands, listed from the weakest to the strongest.
/// A royal flush is a straight flush with an ace as its high rank.
#[derive(Clone, Copy, Debug, PartialEq, Eq, Structural, Hash, PartialOrd, Ord)]
pub enum Ranks {
    HighCard,
    OnePair,
    TwoPair,
    ThreeOfAKind,
    Straight,
    Flush,
    FullHouse,
    FourOfAKind,
    StraightFlush,
}

impl Ranks {
    /// The place of a category in the order of strength, from 0 for a high
    /// card to 8 for a straight flush.
    pub open spec fn strength(self) -> int {
        match self {
            Ranks::HighCard => 0,
            Ranks::OnePair => 1,
            Ranks::TwoPair => 2,
            Ranks::ThreeOfAKind => 3,
            Ranks::Straight => 4,
            Ranks::Flush => 5,
            Ranks::FullHouse => 6,
            Ranks::FourOfAKind => 7,
            Ranks::StraightFlush => 8,
        }
    }

    /// The place of a category in the order of strength.
    pub fn index(&self) -> (i: u8)
        ensures
            i == self.strength(),
    {
        match self {
            Ranks::HighCard => 0,
            Ranks::OnePair => 1,
            Ranks::TwoPair => 2,
            Ranks::ThreeOfAKind => 3,
            Ranks::Straight => 4,
            Ranks::Flush => 5,
            Ranks::FullHouse => 6,
            Ranks::FourOfAKind => 7,
            Ranks::StraightFlush => 8,
        }
    }
}

/// An evaluated hand: its category and the ranks that break ties within the
/// category, the most significant first.
#[derive(Clone, Debug, PartialEq, Eq)]
pub struct Rank {
    pub rank: Ranks,
    pub signature: Vec<u8>,
}

impl View for Rank {
    type V = (Ranks, Seq<u8>);

    open spec fn view(&self) -> (Ranks, Seq<u8>) {
        (self.rank, self.signature@)
    }
}

/// Why a hand cannot be evaluated.
#[derive(Clone, Copy, Debug, PartialEq, Eq, Structural)]
pub enum HandError {
    /// The hand has fewer than five or more than seven cards, or holds the
    /// same card twice.
    InvalidHand,
}

} // verus!
