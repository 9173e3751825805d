//! The category detectors. Each says whether a pattern is present and, if it
//! is, gives the ranks that define it.

use vstd::multiset::Multiset;
use vstd::prelude::*;
use crate::card::{Card, Hand, Suit, SuitCounts};
use crate::tally::{
    best_straight, highest_ranks, highest_with, highest_with_count, straight_high, suit_tally,
    tally_of, tally_ranks, top_ranks, without, RANK_SPACE,
};

verus! {

/// The two highest ranks that occur at least twice, the higher first.
pub open spec fn two_pairs(t: Seq<usize>) -> Option<(u8, u8)> {
    match highest_with(t, 2, 256) {
        Some(high) => match highest_with(t, 2, high as int) {
            Some(low) => Some((high, low)),
            None => None,
        },
        None => None,
    }
}

/// The highest rank that occurs at least three times, with the highest other
/// rank that occurs at least twice.
pub open spec fn full_house(t: Seq<usize>) -> Option<(u8, u8)> {
    match highest_with(t, 3, 256) {
        Some(trips) => match highest_with(t.update(trips as int, 0), 2, 256) {
            Some(pair) => Some((trips, pair)),
            None => None,
        },
        None => None,
    }
}

/// The first suit, in the order clubs, diamonds, hearts, spades, that counts
/// five cards or more.
pub open spec fn flush_in(counts: SuitCounts) -> Option<Suit> {
    if counts.clubs >= 5 {
        Some(Suit::Clubs)
    } else if counts.diamonds >= 5 {
        Some(Suit::Diamonds)
    } else if counts.hearts >= 5 {
        Some(Suit::Hearts)
    } else if counts.spades >= 5 {
        Some(Suit::Spades)
    } else {
        None
    }
}

/// The higher of two optional ranks; an absent rank is below every rank.
pub open spec fn better(a: Option<u8>, b: Option<u8>) -> Option<u8> {
    match (a, b) {
        (Some(x), Some(y)) => if x >= y {
            a
        } else {
            b
        },
        (Some(_), None) => a,
        _ => b,
    }
}

/// The high rank of the best straight that lies within one suit: for each
/// suit the straight is sought among the ranks of that suit alone.
pub open spec fn straight_flush(cards: Multiset<Card>) -> Option<u8> {
    better(
        better(
            straight_high(suit_tally(cards, Suit::Clubs), 256),
            straight_high(suit_tally(cards, Suit::Diamonds), 256),
        ),
        better(
            straight_high(suit_tally(cards, Suit::Hearts), 256),
            straight_high(suit_tally(cards, Suit::Spades), 256),
        ),
    )
}

/// The five highest ranks of a suit as cards of that suit, highest first.
pub open spec fn flush_cards(cards: Multiset<Card>, suit: Suit) -> Seq<Card> {
    top_ranks(suit_tally(cards, suit), 256, 5).map_values(|r: u8| Card { rank: r, suit })
}

/// The higher of two optional ranks.
pub fn pick_better(a: Option<u8>, b: Option<u8>) -> (best: Option<u8>)
    ensures
        best == better(a, b),
{
    match (a, b) {
        (Some(x), Some(y)) => if x >= y {
            a
        } else {
            b
        },
        (Some(_), None) => a,
        _ => b,
    }
}

/// The high rank of the best straight among the given ranks, or `None` where
/// they hold no straight. Ace, 2, 3, 4, 5 is a straight with high rank 5.
pub fn is_straight(cards: Vec<u8>) -> (found: Option<u8>)
    ensures
        found == straight_high(tally_of(cards@), 256),
{
    let t = tally_ranks(&cards);
    best_straight(&t)
}

/// The highest rank that occurs at least twice among the given ranks.
pub fn is_pair(ranks: Vec<u8>) -> (found: Option<u8>)
    ensures
        found == highest_with(tally_of(ranks@), 2, 256),
{
    let t = tally_ranks(&ranks);
    highest_with_count(&t, 2, RANK_SPACE)
}

/// The highest rank that occurs at least three times among the given ranks.
pub fn is_three_of_a_kind(ranks: Vec<u8>) -> (found: Option<u8>)
    ensures
        found == highest_with(tally_of(ranks@), 3, 256),
{
    let t = tally_ranks(&ranks);
    highest_with_count(&t, 3, RANK_SPACE)
}

/// The highest rank that occurs at least four times among the given ranks.
pub fn is_four_of_a_kind(ranks: Vec<u8>) -> (found: Option<u8>)
    ensures
        found == highest_with(tally_of(ranks@), 4, 256),
{
    let t = tally_ranks(&ranks);
    highest_with_count(&t, 4, RANK_SPACE)
}

/// The highest of the given ranks, or `None` where there is none.
pub fn high_card(ranks: Vec<u8>) -> (found: Option<u8>)
    ensures
        found == highest_with(tally_of(ranks@), 1, 256),
{
    let t = tally_ranks(&ranks);
    highest_with_count(&t, 1, RANK_SPACE)
}

/// The two highest ranks of a tally that occur at least twice.
pub fn find_two_pairs(t: &Vec<usize>) -> (found: Option<(u8, u8)>)
    requires
        t.len() == 256,
    ensures
        found == two_pairs(t@),
{
    match highest_with_count(t, 2, RANK_SPACE) {
        Some(high) => match highest_with_count(t, 2, high as usize) {
            Some(low) => Some((high, low)),
            None => None,
        },
        None => None,
    }
}

/// The trips and the pair of the best full house that a tally holds.
pub fn find_full_house(t: &Vec<usize>) -> (found: Option<(u8, u8)>)
    requires
        t.len() == 256,
    ensures
        found == full_house(t@),
{
    match highest_with_count(t, 3, RANK_SPACE) {
        Some(trips) => {
            let rest = without(t, trips);
            match highest_with_count(&rest, 2, RANK_SPACE) {
                Some(pair) => Some((trips, pair)),
                None => None,
            }
        },
        None => None,
    }
}

/// The two highest ranks that occur at least twice among the given ranks, the
/// higher first, or `None` where fewer than two ranks do.
pub fn is_two_pair(ranks: Vec<u8>) -> (found: Option<[u8; 2]>)
    ensures
        match found {
            Some(pairs) => two_pairs(tally_of(ranks@)) == Some((pairs[0], pairs[1])),
            None => two_pairs(tally_of(ranks@)) is None,
        },
{
    let t = tally_ranks(&ranks);
    match find_two_pairs(&t) {
        Some((high, low)) => Some([high, low]),
        None => None,
    }
}

/// The highest rank that occurs at least three times, followed by the
/// highest other rank that occurs at least twice, or `None` where either is
/// missing. A second rank that occurs three times serves as the pair.
pub fn is_full_house(ranks: Vec<u8>) -> (found: Option<[u8; 2]>)
    ensures
        match found {
            Some(ranks_found) => full_house(tally_of(ranks@)) == Some(
                (ranks_found[0], ranks_found[1]),
            ),
            None => full_house(tally_of(ranks@)) is None,
        },
{
    let t = tally_ranks(&ranks);
    match find_full_house(&t) {
        Some((trips, pair)) => Some([trips, pair]),
        None => None,
    }
}

/// The suit that counts five cards or more, if there is one.
pub fn is_flush(suits: SuitCounts) -> (found: Option<Suit>)
    ensures
        found == flush_in(suits),
{
    if suits.clubs >= 5 {
        Some(Suit::Clubs)
    } else if suits.diamonds >= 5 {
        Some(Suit::Diamonds)
    } else if suits.hearts >= 5 {
        Some(Suit::Hearts)
    } else if suits.spades >= 5 {
        Some(Suit::Spades)
    } else {
        None
    }
}

/// The hand's cards of the five highest ranks of one suit, highest first;
/// fewer where the suit holds fewer ranks.
pub fn get_flush(hand: &Hand, suit: Suit) -> (cards: Vec<Card>)
    ensures
        cards@ == flush_cards(hand@, suit),
{
    let t = hand.suit_tally(suit);
    let ranks = highest_ranks(&t, 5);
    let mut cards: Vec<Card> = Vec::new();
    let mut i: usize = 0;
    while i < ranks.len()
        invariant
            i <= ranks.len(),
            cards.len() == i,
            forall|j: int| 0 <= j < i ==> cards[j] == (Card { rank: ranks[j], suit }),
        decreases ranks.len() - i,
    {
        cards.push(Card { rank: ranks[i], suit });
        i = i + 1;
    }
    proof {
        assert(cards@ =~= flush_cards(hand@, suit));
    }
    cards
}

/// The high rank of the best straight flush in the hand, or `None` where no
/// suit holds a straight among its own ranks.
pub fn is_straight_flush(hand: &Hand) -> (found: Option<u8>)
    ensures
        found == straight_flush(hand@),
{
    let clubs = best_straight(&hand.suit_tally(Suit::Clubs));
    let diamonds = best_straight(&hand.suit_tally(Suit::Diamonds));
    let hearts = best_straight(&hand.suit_tally(Suit::Hearts));
    let spades = best_straight(&hand.suit_tally(Suit::Spades));
    pick_better(pick_better(clubs, diamonds), pick_better(hearts, spades))
}

} // verus!
