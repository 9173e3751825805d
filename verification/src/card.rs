//! Cards, suits and hands.

use vstd::multiset::Multiset;
use vstd::prelude::*;

verus! {

/// One of the four suits. Suits carry no order of strength.
#[derive(Clone, Copy, Debug, PartialEq, Eq, Structural, Hash)]
pub enum Suit {
    Clubs,
    Diamonds,
    Hearts,
    Spades,
}

/// A playing card. Ranks run from 2 to 14, where 11 to 14 stand for jack,
/// queen, king and ace.
#[derive(Clone, Copy, Debug, PartialEq, Eq, Structural, Hash)]
pub struct Card {
    pub rank: u8,
    pub suit: Suit,
}

/// The cards presented for evaluation, in the order in which they were given.
#[derive(Clone, Debug, PartialEq, Eq)]
pub struct Hand {
    pub cards: Vec<Card>,
}

impl View for Hand {
    type V = Multiset<Card>;

    /// A hand is analysed as the unordered collection of its cards.
    open spec fn view(&self) -> Multiset<Card> {
        self.cards@.to_multiset()
    }
}

/// How many cards of a hand belong to each suit.
#[derive(Clone, Copy, Debug, PartialEq, Eq, Structural)]
pub struct SuitCounts {
    pub clubs: usize,
    pub diamonds: usize,
    pub hearts: usize,
    pub spades: usize,
}

impl SuitCounts {
    /// The count recorded for one suit.
    pub open spec fn of(self, suit: Suit) -> nat {
        match suit {
            Suit::Clubs => self.clubs as nat,
            Suit::Diamonds => self.diamonds as nat,
            Suit::Hearts => self.hearts as nat,
            Suit::Spades => self.spades as nat,
        }
    }

    /// The count recorded for one suit.
    pub fn get(&self, suit: Suit) -> (n: usize)
        ensures
            n == self.of(suit),
    {
        match suit {
            Suit::Clubs => self.clubs,
            Suit::Diamonds => self.diamonds,
            Suit::Hearts => self.hearts,
            Suit::Spades => self.spades,
        }
    }
}

/// The number of cards of `suit` in a sequence of cards.
pub open spec fn suit_count(cards: Seq<Card>, suit: Suit) -> nat
    decreases cards.len(),
{
    if cards.len() == 0 {
        0
    } else {
        suit_count(cards.drop_last(), suit) + if cards.last().suit == suit {
            1nat
        } else {
            0nat
        }
    }
}

/// A suit counts no more cards than the sequence has.
pub proof fn suit_count_bounded(cards: Seq<Card>, suit: Suit)
    ensures
        suit_count(cards, suit) <= cards.len(),
    decreases cards.len(),
{
    if cards.len() > 0 {
        suit_count_bounded(cards.drop_last(), suit);
    }
}

impl Hand {
    /// A hand of the given cards, kept in the order given.
    pub fn new(cards: Vec<Card>) -> (hand: Hand)
        ensures
            hand.cards@ == cards@,
    {
        Hand { cards }
    }

    /// Counts the cards of each suit.
    pub fn suits(&self) -> (counts: SuitCounts)
        ensures
            forall|s: Suit| counts.of(s) == suit_count(self.cards@, s),
    {
        let mut counts = SuitCounts { clubs: 0, diamonds: 0, hearts: 0, spades: 0 };
        let mut i: usize = 0;
        while i < self.cards.len()
            invariant
                i <= self.cards.len(),
                forall|s: Suit| counts.of(s) == suit_count(self.cards@.take(i as int), s),
            decreases self.cards.len() - i,
        {
            proof {
                assert(self.cards@.take(i + 1).drop_last() =~= self.cards@.take(i as int));
                assert forall|s: Suit| suit_count(self.cards@.take(i as int), s) <= i by {
                    suit_count_bounded(self.cards@.take(i as int), s);
                }
                assert(counts.of(Suit::Clubs) <= i);
                assert(counts.of(Suit::Diamonds) <= i);
                assert(counts.of(Suit::Hearts) <= i);
                assert(counts.of(Suit::Spades) <= i);
            }
            match self.cards[i].suit {
                Suit::Clubs => {
                    counts.clubs = counts.clubs + 1;
                },
                Suit::Diamonds => {
                    counts.diamonds = counts.diamonds + 1;
                },
                Suit::Hearts => {
                    counts.hearts = counts.hearts + 1;
                },
                Suit::Spades => {
                    counts.spades = counts.spades + 1;
                },
            }
            i = i + 1;
        }
        proof {
            assert(self.cards@.take(i as int) =~= self.cards@);
        }
        counts
    }
}

} // verus!
