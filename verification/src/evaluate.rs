//! The evaluator: the strongest category that a hand holds, with the ranks
//! that break ties within that category.

use vstd::multiset::Multiset;
use vstd::prelude::*;
use crate::card::{Card, Hand, Suit};
use crate::category::{HandError, Rank, Ranks};
use crate::counting::{
    flush_suit_matches_counts, signature_drawn_from_hand, signature_has_fixed_length,
    signature_len,
};
use crate::detect::{
    find_full_house, find_two_pairs, full_house, is_flush, is_straight_flush, straight_flush,
    two_pairs,
};
use crate::shape::{analyze, valid_hand};
use crate::tally::{
    best_straight, highest_ranks, highest_with, highest_with_count, rank_count, rank_tally,
    straight_at, straight_high, straight_high_is_highest, suit_tally, top_ranks, without,
    RANK_SPACE,
};

verus! {

/// Whether a suit holds five ranks or more.
pub open spec fn has_flush(cards: Multiset<Card>, suit: Suit) -> bool {
    top_ranks(suit_tally(cards, suit), 256, 5).len() == 5
}

/// The first suit, in the order clubs, diamonds, hearts, spades, that holds
/// five ranks or more. Among seven different cards at most one suit does.
pub open spec fn flush_suit(cards: Multiset<Card>) -> Option<Suit> {
    if has_flush(cards, Suit::Clubs) {
        Some(Suit::Clubs)
    } else if has_flush(cards, Suit::Diamonds) {
        Some(Suit::Diamonds)
    } else if has_flush(cards, Suit::Hearts) {
        Some(Suit::Hearts)
    } else if has_flush(cards, Suit::Spades) {
        Some(Suit::Spades)
    } else {
        None
    }
}

/// The `k` highest ranks that are left once the ranks of the defining group
/// are set aside, highest first.
pub open spec fn kickers(t: Seq<usize>, k: nat) -> Seq<u8> {
    top_ranks(t, 256, k)
}

/// The value of a collection of cards: the first category, from the
/// strongest down, whose pattern the cards hold, and its signature.
///
/// | category | signature |
/// |---|---|
/// | straight flush, straight | the high rank of the straight |
/// | four of a kind | the rank of the four, the highest other rank |
/// | full house | the rank of the three, the rank of the pair |
/// | flush | the five highest ranks of the suit |
/// | three of a kind | the rank of the three, the two highest other ranks |
/// | two pair | the higher pair, the lower pair, the highest other rank |
/// | one pair | the rank of the pair, the three highest other ranks |
/// | high card | the five highest ranks |
pub open spec fn evaluation(cards: Multiset<Card>) -> (Ranks, Seq<u8>) {
    let t = rank_tally(cards);
    if let Some(high) = straight_flush(cards) {
        (Ranks::StraightFlush, seq![high])
    } else if let Some(four) = highest_with(t, 4, 256) {
        (Ranks::FourOfAKind, seq![four] + kickers(t.update(four as int, 0), 1))
    } else if let Some((trips, pair)) = full_house(t) {
        (Ranks::FullHouse, seq![trips, pair])
    } else if let Some(suit) = flush_suit(cards) {
        (Ranks::Flush, top_ranks(suit_tally(cards, suit), 256, 5))
    } else if let Some(high) = straight_high(t, 256) {
        (Ranks::Straight, seq![high])
    } else if let Some(trips) = highest_with(t, 3, 256) {
        (Ranks::ThreeOfAKind, seq![trips] + kickers(t.update(trips as int, 0), 2))
    } else if let Some((high, low)) = two_pairs(t) {
        (
            Ranks::TwoPair,
            seq![high, low] + kickers(t.update(high as int, 0).update(low as int, 0), 1),
        )
    } else if let Some(pair) = highest_with(t, 2, 256) {
        (Ranks::OnePair, seq![pair] + kickers(t.update(pair as int, 0), 3))
    } else {
        (Ranks::HighCard, top_ranks(t, 256, 5))
    }
}

/// What evaluating a sequence of cards gives: the value of the cards where
/// they make a valid hand, and the error where they do not.
pub open spec fn outcome(cards: Seq<Card>) -> Result<(Ranks, Seq<u8>), HandError> {
    if valid_hand(cards) {
        Ok(evaluation(cards.to_multiset()))
    } else {
        Err(HandError::InvalidHand)
    }
}

/// Evaluation does not depend on the order of the cards: two sequences that
/// hold the same cards, each as often as the other, are both valid or both
/// invalid, and have the same value.
pub proof fn outcome_ignores_order(a: Seq<Card>, b: Seq<Card>)
    requires
        a.to_multiset() == b.to_multiset(),
    ensures
        valid_hand(a) == valid_hand(b),
        outcome(a) == outcome(b),
{
    a.to_multiset_ensures();
    b.to_multiset_ensures();
    assert(a.len() == b.len());
    if a.no_duplicates() {
        a.lemma_multiset_has_no_duplicates();
        b.lemma_multiset_has_no_duplicates_conv();
    }
    if b.no_duplicates() {
        b.lemma_multiset_has_no_duplicates();
        a.lemma_multiset_has_no_duplicates_conv();
    }
}

/// A hand evaluates to a straight flush exactly when one suit holds, among
/// its own ranks, the five ranks of a straight. A flush in one suit beside a
/// straight that runs over several suits is no straight flush.
pub proof fn straight_flush_lies_in_one_suit(cards: Multiset<Card>)
    ensures
        evaluation(cards).0 == Ranks::StraightFlush <==> exists|suit: Suit, high: int|
            0 <= high < 256 && #[trigger] straight_at(suit_tally(cards, suit), high),
{
    straight_high_is_highest(suit_tally(cards, Suit::Clubs), 256);
    straight_high_is_highest(suit_tally(cards, Suit::Diamonds), 256);
    straight_high_is_highest(suit_tally(cards, Suit::Hearts), 256);
    straight_high_is_highest(suit_tally(cards, Suit::Spades), 256);
    if evaluation(cards).0 == Ranks::StraightFlush {
        assert(straight_flush(cards) is Some);
        let suit = if straight_high(suit_tally(cards, Suit::Clubs), 256) is Some {
            Suit::Clubs
        } else if straight_high(suit_tally(cards, Suit::Diamonds), 256) is Some {
            Suit::Diamonds
        } else if straight_high(suit_tally(cards, Suit::Hearts), 256) is Some {
            Suit::Hearts
        } else {
            Suit::Spades
        };
        let high = straight_high(suit_tally(cards, suit), 256).unwrap() as int;
        assert(straight_at(suit_tally(cards, suit), high));
    }
}

/// The category of a hand is the strongest one whose pattern the cards hold:
/// a pattern that is present is never passed over for a weaker category, and
/// the pattern of the category that is reported is present.
pub proof fn category_is_strongest_present(cards: Multiset<Card>)
    ensures
        ({
            let t = rank_tally(cards);
            let c = evaluation(cards).0;
            &&& straight_flush(cards) is Some ==> c.strength() >= 8
            &&& highest_with(t, 4, 256) is Some ==> c.strength() >= 7
            &&& full_house(t) is Some ==> c.strength() >= 6
            &&& flush_suit(cards) is Some ==> c.strength() >= 5
            &&& straight_high(t, 256) is Some ==> c.strength() >= 4
            &&& highest_with(t, 3, 256) is Some ==> c.strength() >= 3
            &&& two_pairs(t) is Some ==> c.strength() >= 2
            &&& highest_with(t, 2, 256) is Some ==> c.strength() >= 1
            &&& c == Ranks::StraightFlush ==> straight_flush(cards) is Some
            &&& c == Ranks::FourOfAKind ==> highest_with(t, 4, 256) is Some
            &&& c == Ranks::FullHouse ==> full_house(t) is Some
            &&& c == Ranks::Flush ==> flush_suit(cards) is Some
            &&& c == Ranks::Straight ==> straight_high(t, 256) is Some
            &&& c == Ranks::ThreeOfAKind ==> highest_with(t, 3, 256) is Some
            &&& c == Ranks::TwoPair ==> two_pairs(t) is Some
            &&& c == Ranks::OnePair ==> highest_with(t, 2, 256) is Some
        }),
{
}

/// A signature that starts with one rank and goes on with the `k` highest
/// ranks of a tally.
fn lead_one(first: u8, rest: &Vec<usize>, k: usize) -> (sig: Vec<u8>)
    requires
        rest.len() == 256,
    ensures
        sig@ == seq![first] + kickers(rest@, k as nat),
{
    let mut sig: Vec<u8> = Vec::new();
    sig.push(first);
    let mut tail = highest_ranks(rest, k);
    sig.append(&mut tail);
    proof {
        assert(sig@ =~= seq![first] + kickers(rest@, k as nat));
    }
    sig
}

/// A signature of two ranks followed by the `k` highest ranks of a tally.
fn lead_two(first: u8, second: u8, rest: &Vec<usize>, k: usize) -> (sig: Vec<u8>)
    requires
        rest.len() == 256,
    ensures
        sig@ == seq![first, second] + kickers(rest@, k as nat),
{
    let mut sig: Vec<u8> = Vec::new();
    sig.push(first);
    sig.push(second);
    let mut tail = highest_ranks(rest, k);
    sig.append(&mut tail);
    proof {
        assert(sig@ =~= seq![first, second] + kickers(rest@, k as nat));
    }
    sig
}

/// Evaluates a hand: the strongest category that its cards hold and the
/// signature of that category. A hand of fewer than five or more than seven
/// cards, or with a card that occurs twice, is refused. The signature has
/// the length of its category, and each of its ranks is the rank of a card
/// of the hand.
pub fn evaluate(hand: &Hand) -> (res: Result<Rank, HandError>)
    ensures
        match res {
            Ok(value) => {
                &&& outcome(hand.cards@) == Ok::<(Ranks, Seq<u8>), HandError>(value@)
                &&& value.signature.len() == signature_len(value.rank)
                &&& forall|i: int|
                    0 <= i < value.signature.len() ==> rank_count(
                        hand@,
                        #[trigger] value.signature[i],
                    ) > 0
            },
            Err(e) => outcome(hand.cards@) == Err::<(Ranks, Seq<u8>), HandError>(e),
        },
{
    let shape = match analyze(hand) {
        Ok(shape) => shape,
        Err(e) => {
            return Err(e);
        },
    };
    let t = shape.ranks;
    proof {
        flush_suit_matches_counts(*hand, shape.suits);
        signature_has_fixed_length(hand.cards@);
        signature_drawn_from_hand(hand.cards@);
    }
    if let Some(high) = is_straight_flush(hand) {
        let mut signature: Vec<u8> = Vec::new();
        signature.push(high);
        proof {
            assert(signature@ =~= seq![high]);
        }
        return Ok(Rank { rank: Ranks::StraightFlush, signature });
    }
    if let Some(four) = highest_with_count(&t, 4, RANK_SPACE) {
        let signature = lead_one(four, &without(&t, four), 1);
        return Ok(Rank { rank: Ranks::FourOfAKind, signature });
    }
    if let Some((trips, pair)) = find_full_house(&t) {
        let mut signature: Vec<u8> = Vec::new();
        signature.push(trips);
        signature.push(pair);
        proof {
            assert(signature@ =~= seq![trips, pair]);
        }
        return Ok(Rank { rank: Ranks::FullHouse, signature });
    }
    if let Some(suit) = is_flush(shape.suits) {
        let signature = highest_ranks(&hand.suit_tally(suit), 5);
        return Ok(Rank { rank: Ranks::Flush, signature });
    }
    if let Some(high) = best_straight(&t) {
        let mut signature: Vec<u8> = Vec::new();
        signature.push(high);
        proof {
            assert(signature@ =~= seq![high]);
        }
        return Ok(Rank { rank: Ranks::Straight, signature });
    }
    if let Some(trips) = highest_with_count(&t, 3, RANK_SPACE) {
        let signature = lead_one(trips, &without(&t, trips), 2);
        return Ok(Rank { rank: Ranks::ThreeOfAKind, signature });
    }
    if let Some((high, low)) = find_two_pairs(&t) {
        let rest = without(&without(&t, high), low);
        let signature = lead_two(high, low, &rest, 1);
        return Ok(Rank { rank: Ranks::TwoPair, signature });
    }
    if let Some(pair) = highest_with_count(&t, 2, RANK_SPACE) {
        let signature = lead_one(pair, &without(&t, pair), 3);
        return Ok(Rank { rank: Ranks::OnePair, signature });
    }
    let signature = highest_ranks(&t, 5);
    Ok(Rank { rank: Ranks::HighCard, signature })
}

/// The category of a hand, or `None` where the hand cannot be evaluated.
pub fn get_rank(hand: &Hand) -> (category: Option<Ranks>)
    ensures
        category == match outcome(hand.cards@) {
            Ok(value) => Some(value.0),
            Err(_) => None,
        },
{
    match evaluate(hand) {
        Ok(value) => Some(value.rank),
        Err(_) => None,
    }
}

} // verus!
