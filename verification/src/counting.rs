//! Counting arguments: how the tallies of a hand relate to the number of its
//! cards, and what follows for flushes.

use vstd::multiset::Multiset;
use vstd::prelude::*;
use crate::card::{suit_count, Card, Hand, Suit, SuitCounts};
use crate::category::Ranks;
use crate::detect::{flush_in, straight_flush};
use crate::evaluate::{evaluation, flush_suit, has_flush};
use crate::shape::valid_hand;
use crate::tally::{
    count_after_push, highest_with, highest_with_is_highest, rank_count, rank_tally, straight_at,
    straight_high, straight_high_is_highest, suit_tally, top_ranks, top_ranks_descend, total,
    total_after_update, total_of_none,
};

verus! {

/// The number of ranks below `bound` that occur in the tally.
pub open spec fn held(t: Seq<usize>, bound: int) -> nat
    decreases bound,
{
    if bound <= 0 {
        0
    } else {
        held(t, bound - 1) + if t[bound - 1] > 0 {
            1nat
        } else {
            0nat
        }
    }
}

/// `top_ranks` lists as many ranks as were asked for, or all that the tally
/// holds below the bound where those are fewer.
pub proof fn top_ranks_len(t: Seq<usize>, bound: int, k: nat)
    ensures
        top_ranks(t, bound, k).len() == if held(t, bound) < k {
            held(t, bound)
        } else {
            k
        },
    decreases bound,
{
    if bound > 0 && k > 0 {
        if t[bound - 1] > 0 {
            top_ranks_len(t, bound - 1, (k - 1) as nat);
        } else {
            top_ranks_len(t, bound - 1, k);
        }
    }
}

/// A tally without occurrences holds no rank.
pub proof fn held_of_none(t: Seq<usize>, bound: int)
    requires
        bound <= t.len(),
        forall|r: int| 0 <= r < bound ==> t[r] == 0,
    ensures
        held(t, bound) == 0,
    decreases bound,
{
    if bound > 0 {
        held_of_none(t, bound - 1);
    }
}

/// A rank that occurs for the first time adds one to the ranks held, if it
/// lies below the bound.
pub proof fn held_after_first(t: Seq<usize>, r: int, n: usize, bound: int)
    requires
        0 <= r < t.len(),
        bound <= t.len(),
        t[r] == 0,
        n > 0,
    ensures
        held(t.update(r, n), bound) == held(t, bound) + if r < bound {
            1nat
        } else {
            0nat
        },
    decreases bound,
{
    if bound > 0 {
        held_after_first(t, r, n, bound - 1);
    }
}

/// Among cards that are all different, a suit holds as many ranks as it has
/// cards.
pub proof fn suit_holds_one_rank_per_card(cards: Seq<Card>, suit: Suit)
    requires
        cards.no_duplicates(),
    ensures
        held(suit_tally(cards.to_multiset(), suit), 256) == suit_count(cards, suit),
    decreases cards.len(),
{
    let t = suit_tally(cards.to_multiset(), suit);
    if cards.len() == 0 {
        cards.to_multiset_ensures();
        assert forall|r: int| 0 <= r < 256 implies t[r] == 0 by {
            assert(!cards.contains(Card { rank: r as u8, suit }));
        }
        held_of_none(t, 256);
    } else {
        let rest = cards.drop_last();
        let c = cards.last();
        assert(rest.push(c) =~= cards);
        suit_holds_one_rank_per_card(rest, suit);
        let before = suit_tally(rest.to_multiset(), suit);
        rest.to_multiset_ensures();
        rest.lemma_multiset_has_no_duplicates();
        assert(!rest.contains(c)) by {
            if rest.contains(c) {
                let i = choose|i: int| 0 <= i < rest.len() && rest[i] == c;
                assert(cards[i] == cards[cards.len() - 1]);
            }
        }
        assert forall|q: u8| #[trigger]
            cards.to_multiset().count(Card { rank: q, suit }) == rest.to_multiset().count(
                Card { rank: q, suit },
            ) + if q == c.rank && c.suit == suit {
                1nat
            } else {
                0nat
            } by {
            count_after_push(rest, c, Card { rank: q, suit });
        }
        if c.suit == suit {
            assert(rest.to_multiset().count(c) == 0);
            assert(before[c.rank as int] == 0);
            assert forall|r: int| 0 <= r < 256 implies t[r] == before.update(c.rank as int, 1)[r] by {
                let q = r as u8;
                assert(cards.to_multiset().count(Card { rank: q, suit })
                    == rest.to_multiset().count(Card { rank: q, suit }) + if q == c.rank {
                    1nat
                } else {
                    0nat
                });
            }
            assert(t =~= before.update(c.rank as int, 1));
            held_after_first(before, c.rank as int, 1, 256);
        } else {
            assert forall|r: int| 0 <= r < 256 implies t[r] == before[r] by {
                let q = r as u8;
                assert(cards.to_multiset().count(Card { rank: q, suit })
                    == rest.to_multiset().count(Card { rank: q, suit }));
            }
            assert(t =~= before);
        }
    }
}

/// Among cards that are all different, a suit has a flush exactly when five
/// or more of the cards belong to it.
pub proof fn flush_is_five_of_a_suit(cards: Seq<Card>, suit: Suit)
    requires
        cards.no_duplicates(),
    ensures
        has_flush(cards.to_multiset(), suit) <==> suit_count(cards, suit) >= 5,
{
    suit_holds_one_rank_per_card(cards, suit);
    top_ranks_len(suit_tally(cards.to_multiset(), suit), 256, 5);
}

/// The counts of the four suits add up to the number of cards.
pub proof fn suit_counts_add_up(cards: Seq<Card>)
    ensures
        suit_count(cards, Suit::Clubs) + suit_count(cards, Suit::Diamonds) + suit_count(
            cards,
            Suit::Hearts,
        ) + suit_count(cards, Suit::Spades) == cards.len(),
    decreases cards.len(),
{
    if cards.len() > 0 {
        suit_counts_add_up(cards.drop_last());
    }
}

/// The flush suit that the evaluator finds in a hand of different cards is
/// the suit that the suit counts of the hand show. With seven cards or fewer
/// no second suit has a flush.
pub proof fn flush_suit_matches_counts(hand: Hand, counts: SuitCounts)
    requires
        hand.cards@.no_duplicates(),
        forall|s: Suit| counts.of(s) == suit_count(hand.cards@, s),
    ensures
        flush_suit(hand@) == flush_in(counts),
        hand.cards.len() <= 7 ==> forall|s: Suit|
            #[trigger] has_flush(hand@, s) ==> flush_suit(hand@) == Some(s),
{
    flush_is_five_of_a_suit(hand.cards@, Suit::Clubs);
    flush_is_five_of_a_suit(hand.cards@, Suit::Diamonds);
    flush_is_five_of_a_suit(hand.cards@, Suit::Hearts);
    flush_is_five_of_a_suit(hand.cards@, Suit::Spades);
    suit_counts_add_up(hand.cards@);
    assert(counts.of(Suit::Clubs) == suit_count(hand.cards@, Suit::Clubs));
    assert(counts.of(Suit::Diamonds) == suit_count(hand.cards@, Suit::Diamonds));
    assert(counts.of(Suit::Hearts) == suit_count(hand.cards@, Suit::Hearts));
    assert(counts.of(Suit::Spades) == suit_count(hand.cards@, Suit::Spades));
}

/// A tally holds no more ranks than occurrences; it holds exactly as many
/// where no rank occurs twice, and at least one where anything occurs.
pub proof fn held_against_total(t: Seq<usize>, bound: int)
    requires
        bound <= t.len(),
    ensures
        held(t, bound) <= total(t, bound),
        (forall|r: int| 0 <= r < bound ==> t[r] <= 1) ==> held(t, bound) == total(t, bound),
        total(t, bound) > 0 ==> held(t, bound) > 0,
    decreases bound,
{
    if bound > 0 {
        held_against_total(t, bound - 1);
    }
}

/// Among cards that are all different each card occurs once, so that no rank
/// occurs more than four times.
pub proof fn four_of_a_rank_at_most(cards: Seq<Card>, r: u8)
    requires
        cards.no_duplicates(),
    ensures
        rank_count(cards.to_multiset(), r) <= 4,
        forall|c: Card| #[trigger] cards.to_multiset().count(c) <= 1,
{
    cards.to_multiset_ensures();
    cards.lemma_multiset_has_no_duplicates();
    assert forall|c: Card| #[trigger] cards.to_multiset().count(c) <= 1 by {
        if cards.to_multiset().count(c) > 0 {
            assert(cards.to_multiset().contains(c));
        }
    }
}

/// The occurrences of all ranks in the tally of cards that are all different
/// add up to the number of the cards.
pub proof fn rank_tally_adds_up(cards: Seq<Card>)
    requires
        cards.no_duplicates(),
    ensures
        total(rank_tally(cards.to_multiset()), 256) == cards.len(),
    decreases cards.len(),
{
    let t = rank_tally(cards.to_multiset());
    if cards.len() == 0 {
        cards.to_multiset_ensures();
        assert forall|r: int| 0 <= r < 256 implies t[r] == 0 by {
            let q = r as u8;
            assert(!cards.contains(Card { rank: q, suit: Suit::Clubs }));
            assert(!cards.contains(Card { rank: q, suit: Suit::Diamonds }));
            assert(!cards.contains(Card { rank: q, suit: Suit::Hearts }));
            assert(!cards.contains(Card { rank: q, suit: Suit::Spades }));
        }
        total_of_none(t, 256);
    } else {
        let rest = cards.drop_last();
        let c = cards.last();
        assert(rest.push(c) =~= cards);
        rank_tally_adds_up(rest);
        let before = rank_tally(rest.to_multiset());
        assert forall|q: u8|
            rank_count(cards.to_multiset(), q) == rank_count(rest.to_multiset(), q) + if q
                == c.rank {
                1nat
            } else {
                0nat
            } && #[trigger] rank_count(cards.to_multiset(), q) <= 4 by {
            count_after_push(rest, c, Card { rank: q, suit: Suit::Clubs });
            count_after_push(rest, c, Card { rank: q, suit: Suit::Diamonds });
            count_after_push(rest, c, Card { rank: q, suit: Suit::Hearts });
            count_after_push(rest, c, Card { rank: q, suit: Suit::Spades });
            four_of_a_rank_at_most(cards, q);
        }
        assert(rank_count(cards.to_multiset(), c.rank) <= 4);
        assert(before[c.rank as int] == rank_count(rest.to_multiset(), c.rank));
        let n: usize = (before[c.rank as int] + 1) as usize;
        assert(t[c.rank as int] == n);
        assert forall|r: int| 0 <= r < 256 implies t[r] == before.update(c.rank as int, n)[r] by {
            let q = r as u8;
            assert(rank_count(cards.to_multiset(), q) <= 4);
            assert(t[r] == rank_count(cards.to_multiset(), q));
            assert(before[r] == rank_count(rest.to_multiset(), q));
        }
        assert(t =~= before.update(c.rank as int, n));
        total_after_update(before, c.rank as int, n, 256);
    }
}

/// The length that the signature of each category has.
pub open spec fn signature_len(category: Ranks) -> nat {
    match category {
        Ranks::StraightFlush | Ranks::Straight => 1,
        Ranks::FourOfAKind | Ranks::FullHouse => 2,
        Ranks::ThreeOfAKind | Ranks::TwoPair => 3,
        Ranks::OnePair => 4,
        Ranks::Flush | Ranks::HighCard => 5,
    }
}

/// The signature of a valid hand has the length of its category: a valid
/// hand always has the kickers that its category asks for. Two hands of one
/// category are therefore compared rank by rank over the same length.
pub proof fn signature_has_fixed_length(cards: Seq<Card>)
    requires
        valid_hand(cards),
    ensures
        evaluation(cards.to_multiset()).1.len() == signature_len(
            evaluation(cards.to_multiset()).0,
        ),
{
    let m = cards.to_multiset();
    let t = rank_tally(m);
    let category = evaluation(m).0;
    rank_tally_adds_up(cards);
    highest_with_is_highest(t, 4, 256);
    highest_with_is_highest(t, 3, 256);
    highest_with_is_highest(t, 2, 256);
    assert forall|r: int| 0 <= r < 256 implies #[trigger] t[r] <= 4 by {
        four_of_a_rank_at_most(cards, r as u8);
    }
    match category {
        Ranks::FourOfAKind => {
            let four = highest_with(t, 4, 256).unwrap();
            let rest = t.update(four as int, 0);
            total_after_update(t, four as int, 0, 256);
            held_against_total(rest, 256);
            top_ranks_len(rest, 256, 1);
        },
        Ranks::ThreeOfAKind => {
            let trips = highest_with(t, 3, 256).unwrap();
            let rest = t.update(trips as int, 0);
            highest_with_is_highest(rest, 2, 256);
            total_after_update(t, trips as int, 0, 256);
            held_against_total(rest, 256);
            top_ranks_len(rest, 256, 2);
        },
        Ranks::TwoPair => {
            let high = highest_with(t, 2, 256).unwrap();
            highest_with_is_highest(t, 2, high as int);
            let low = highest_with(t, 2, high as int).unwrap();
            let first = t.update(high as int, 0);
            let rest = first.update(low as int, 0);
            total_after_update(t, high as int, 0, 256);
            total_after_update(first, low as int, 0, 256);
            held_against_total(rest, 256);
            top_ranks_len(rest, 256, 1);
        },
        Ranks::OnePair => {
            let pair = highest_with(t, 2, 256).unwrap();
            highest_with_is_highest(t, 2, pair as int);
            let rest = t.update(pair as int, 0);
            total_after_update(t, pair as int, 0, 256);
            held_against_total(rest, 256);
            top_ranks_len(rest, 256, 3);
        },
        Ranks::HighCard => {
            held_against_total(t, 256);
            top_ranks_len(t, 256, 5);
        },
        _ => {},
    }
}

/// Every rank in the signature of a valid hand is the rank of one of its
/// cards.
pub proof fn signature_drawn_from_hand(cards: Seq<Card>)
    requires
        valid_hand(cards),
    ensures
        forall|i: int|
            0 <= i < evaluation(cards.to_multiset()).1.len() ==> rank_count(
                cards.to_multiset(),
                #[trigger] evaluation(cards.to_multiset()).1[i],
            ) > 0,
{
    let m = cards.to_multiset();
    let t = rank_tally(m);
    let category = evaluation(m).0;
    let sig = evaluation(m).1;
    assert forall|r: u8| #[trigger] rank_count(m, r) <= 4 && t[r as int] == rank_count(m, r) by {
        four_of_a_rank_at_most(cards, r);
    }
    assert forall|c: Card| #[trigger] m.count(c) <= 1 by {
        four_of_a_rank_at_most(cards, 0);
    }
    highest_with_is_highest(t, 4, 256);
    highest_with_is_highest(t, 3, 256);
    highest_with_is_highest(t, 2, 256);
    straight_high_is_highest(t, 256);
    match category {
        Ranks::StraightFlush => {
            let high = straight_flush(m).unwrap();
            let suit = if straight_high(suit_tally(m, Suit::Clubs), 256) == Some(high) {
                Suit::Clubs
            } else if straight_high(suit_tally(m, Suit::Diamonds), 256) == Some(high) {
                Suit::Diamonds
            } else if straight_high(suit_tally(m, Suit::Hearts), 256) == Some(high) {
                Suit::Hearts
            } else {
                Suit::Spades
            };
            straight_high_is_highest(suit_tally(m, suit), 256);
            assert(suit_tally(m, suit)[high as int] > 0);
            assert(m.count(Card { rank: high, suit }) > 0);
        },
        Ranks::FourOfAKind => {
            let four = highest_with(t, 4, 256).unwrap();
            top_ranks_descend(t.update(four as int, 0), 256, 1);
        },
        Ranks::FullHouse => {
            let trips = highest_with(t, 3, 256).unwrap();
            highest_with_is_highest(t.update(trips as int, 0), 2, 256);
        },
        Ranks::Flush => {
            let suit = flush_suit(m).unwrap();
            top_ranks_descend(suit_tally(m, suit), 256, 5);
            assert forall|i: int| 0 <= i < sig.len() implies rank_count(m, #[trigger] sig[i])
                > 0 by {
                assert(suit_tally(m, suit)[sig[i] as int] > 0);
                assert(m.count(Card { rank: sig[i], suit }) > 0);
            }
        },
        Ranks::Straight => {},
        Ranks::ThreeOfAKind => {
            let trips = highest_with(t, 3, 256).unwrap();
            top_ranks_descend(t.update(trips as int, 0), 256, 2);
        },
        Ranks::TwoPair => {
            let high = highest_with(t, 2, 256).unwrap();
            highest_with_is_highest(t, 2, high as int);
            let low = highest_with(t, 2, high as int).unwrap();
            top_ranks_descend(t.update(high as int, 0).update(low as int, 0), 256, 1);
        },
        Ranks::OnePair => {
            let pair = highest_with(t, 2, 256).unwrap();
            top_ranks_descend(t.update(pair as int, 0), 256, 3);
        },
        Ranks::HighCard => {
            top_ranks_descend(t, 256, 5);
        },
    }
}

/// Setting aside a rank that occurs leaves one rank fewer.
pub proof fn held_without(t: Seq<usize>, r: int, bound: int)
    requires
        0 <= r < bound <= t.len(),
        t[r] > 0,
    ensures
        held(t, bound) == held(t.update(r, 0), bound) + 1,
{
    let rest = t.update(r, 0);
    assert(rest.update(r, t[r]) =~= t);
    held_after_first(rest, r, t[r], bound);
}

/// A tally with a straight holds five ranks at least.
pub proof fn straight_holds_five_ranks(t: Seq<usize>, high: int)
    requires
        t.len() == 256,
        straight_at(t, high),
    ensures
        held(t, 256) >= 5,
{
    let wheel = !(4 <= high < 256 && t[high] > 0 && t[high - 1] > 0 && t[high - 2] > 0 && t[high
        - 3] > 0 && t[high - 4] > 0);
    let a = if wheel { 14 } else { high };
    let b = if wheel { 5 } else { high - 1 };
    let c = if wheel { 4 } else { high - 2 };
    let d = if wheel { 3 } else { high - 3 };
    let e = if wheel { 2 } else { high - 4 };
    let t1 = t.update(a, 0);
    let t2 = t1.update(b, 0);
    let t3 = t2.update(c, 0);
    let t4 = t3.update(d, 0);
    held_without(t, a, 256);
    held_without(t1, b, 256);
    held_without(t2, c, 256);
    held_without(t3, d, 256);
    held_without(t4, e, 256);
}

/// A suit that holds a straight among its own ranks has a flush: every
/// straight flush is a flush.
pub proof fn straight_in_suit_is_flush(cards: Multiset<Card>, suit: Suit)
    requires
        straight_high(suit_tally(cards, suit), 256) is Some,
    ensures
        has_flush(cards, suit),
        flush_suit(cards) is Some,
{
    let t = suit_tally(cards, suit);
    straight_high_is_highest(t, 256);
    straight_holds_five_ranks(t, straight_high(t, 256).unwrap() as int);
    top_ranks_len(t, 256, 5);
}

/// The wheel: cards of the ranks ace, 2, 3, 4 and 5, one of each and not all
/// of one suit, are a straight with high rank 5, not 14.
pub proof fn wheel_is_five_high(cards: Multiset<Card>)
    requires
        forall|r: u8|
            #[trigger] rank_count(cards, r) == if r == 14 || 2 <= r <= 5 {
                1nat
            } else {
                0nat
            },
        flush_suit(cards) is None,
    ensures
        evaluation(cards) == (Ranks::Straight, seq![5u8]),
{
    let t = rank_tally(cards);
    assert forall|r: int| 0 <= r < 256 implies #[trigger] t[r] == if r == 14 || 2 <= r <= 5 {
        1usize
    } else {
        0usize
    } by {
        let q = r as u8;
        assert(t[r] == rank_count(cards, q) as usize);
    }
    if straight_high(suit_tally(cards, Suit::Clubs), 256) is Some {
        straight_in_suit_is_flush(cards, Suit::Clubs);
    }
    if straight_high(suit_tally(cards, Suit::Diamonds), 256) is Some {
        straight_in_suit_is_flush(cards, Suit::Diamonds);
    }
    if straight_high(suit_tally(cards, Suit::Hearts), 256) is Some {
        straight_in_suit_is_flush(cards, Suit::Hearts);
    }
    if straight_high(suit_tally(cards, Suit::Spades), 256) is Some {
        straight_in_suit_is_flush(cards, Suit::Spades);
    }
    assert(straight_flush(cards) is None);
    highest_with_is_highest(t, 4, 256);
    highest_with_is_highest(t, 3, 256);
    straight_high_is_highest(t, 256);
    assert(straight_at(t, 5));
    assert(straight_high(t, 256) == Some(5u8));
}

} // verus!
