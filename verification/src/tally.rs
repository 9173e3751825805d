//! Tallies: how often each rank occurs in a collection, and the questions the
//! category detectors ask of such a table.
//!
//! A tally is a table with one entry for each value a rank can take; entry `r`
//! is the number of occurrences of rank `r`.

use vstd::multiset::Multiset;
use vstd::prelude::*;
use crate::card::{Card, Hand, Suit};

verus! {

/// The number of entries of a tally: one for each value of a `u8`.
pub const RANK_SPACE: usize = 256;

/// The tally of a sequence of ranks.
pub open spec fn tally_of(ranks: Seq<u8>) -> Seq<usize> {
    Seq::new(256, |r: int| ranks.to_multiset().count(r as u8) as usize)
}

/// The number of cards of rank `r` in a collection of cards, over all suits.
pub open spec fn rank_count(cards: Multiset<Card>, r: u8) -> nat {
    cards.count(Card { rank: r, suit: Suit::Clubs }) + cards.count(
        Card { rank: r, suit: Suit::Diamonds },
    ) + cards.count(Card { rank: r, suit: Suit::Hearts }) + cards.count(
        Card { rank: r, suit: Suit::Spades },
    )
}

/// The tally of the ranks of a collection of cards, whatever their suits.
pub open spec fn rank_tally(cards: Multiset<Card>) -> Seq<usize> {
    Seq::new(256, |r: int| rank_count(cards, r as u8) as usize)
}

/// The tally of the ranks that a collection of cards holds in one suit.
pub open spec fn suit_tally(cards: Multiset<Card>, suit: Suit) -> Seq<usize> {
    Seq::new(256, |r: int| cards.count(Card { rank: r as u8, suit }) as usize)
}

/// The highest rank below `bound` that occurs at least `n` times, if any.
pub open spec fn highest_with(t: Seq<usize>, n: nat, bound: int) -> Option<u8>
    decreases bound,
{
    if bound <= 0 {
        None
    } else if t[bound - 1] >= n {
        Some((bound - 1) as u8)
    } else {
        highest_with(t, n, bound - 1)
    }
}

/// The `k` highest ranks below `bound` that occur at all, highest first, each
/// listed once; fewer where the tally holds fewer.
pub open spec fn top_ranks(t: Seq<usize>, bound: int, k: nat) -> Seq<u8>
    decreases bound,
{
    if bound <= 0 || k == 0 {
        Seq::empty()
    } else if t[bound - 1] > 0 {
        seq![(bound - 1) as u8] + top_ranks(t, bound - 1, (k - 1) as nat)
    } else {
        top_ranks(t, bound - 1, k)
    }
}

/// Whether the five ranks that end at `high` all occur: five consecutive ranks,
/// or, for `high` 5, the wheel of ace (14), 2, 3, 4 and 5.
pub open spec fn straight_at(t: Seq<usize>, high: int) -> bool {
    ||| (4 <= high < 256 && t[high] > 0 && t[high - 1] > 0 && t[high - 2] > 0 && t[high - 3] > 0
        && t[high - 4] > 0)
    ||| (high == 5 && t[14] > 0 && t[2] > 0 && t[3] > 0 && t[4] > 0 && t[5] > 0)
}

/// The high rank of the best straight whose high rank is below `bound`, if any.
pub open spec fn straight_high(t: Seq<usize>, bound: int) -> Option<u8>
    decreases bound,
{
    if bound <= 0 {
        None
    } else if straight_at(t, bound - 1) {
        Some((bound - 1) as u8)
    } else {
        straight_high(t, bound - 1)
    }
}

/// What `highest_with` finds is a rank that occurs often enough and is above
/// every other such rank below the bound; it finds nothing only where there
/// is no such rank.
pub proof fn highest_with_is_highest(t: Seq<usize>, n: nat, bound: int)
    requires
        t.len() == 256,
        0 <= bound <= 256,
    ensures
        match highest_with(t, n, bound) {
            Some(r) => r < bound && t[r as int] >= n && forall|q: int|
                r < q < bound ==> t[q] < n,
            None => forall|q: int| 0 <= q < bound ==> t[q] < n,
        },
    decreases bound,
{
    if bound > 0 && t[bound - 1] < n {
        highest_with_is_highest(t, n, bound - 1);
    }
}

/// What `straight_high` finds is the high rank of a straight and is above the
/// high rank of every other straight below the bound; it finds nothing only
/// where there is no straight.
pub proof fn straight_high_is_highest(t: Seq<usize>, bound: int)
    requires
        t.len() == 256,
        0 <= bound <= 256,
    ensures
        match straight_high(t, bound) {
            Some(h) => h < bound && straight_at(t, h as int) && forall|q: int|
                h < q < bound ==> !straight_at(t, q),
            None => forall|q: int| 0 <= q < bound ==> !straight_at(t, q),
        },
    decreases bound,
{
    if bound > 0 && !straight_at(t, bound - 1) {
        straight_high_is_highest(t, bound - 1);
    }
}

/// The ranks that `top_ranks` lists occur in the tally, lie below the bound
/// and strictly descend; there are at most `k` of them.
pub proof fn top_ranks_descend(t: Seq<usize>, bound: int, k: nat)
    requires
        t.len() == 256,
        0 <= bound <= 256,
    ensures
        top_ranks(t, bound, k).len() <= k,
        forall|i: int|
            0 <= i < top_ranks(t, bound, k).len() ==> (#[trigger] top_ranks(t, bound, k)[i])
                < bound && t[top_ranks(t, bound, k)[i] as int] > 0,
        forall|i: int, j: int|
            0 <= i < j < top_ranks(t, bound, k).len() ==> top_ranks(t, bound, k)[i] > top_ranks(
                t,
                bound,
                k,
            )[j],
    decreases bound,
{
    if bound > 0 && k > 0 {
        if t[bound - 1] > 0 {
            top_ranks_descend(t, bound - 1, (k - 1) as nat);
        } else {
            top_ranks_descend(t, bound - 1, k);
        }
    }
}

/// The number of occurrences of all ranks below `bound` together.
pub open spec fn total(t: Seq<usize>, bound: int) -> nat
    decreases bound,
{
    if bound <= 0 {
        0
    } else {
        total(t, bound - 1) + t[bound - 1] as nat
    }
}

/// Changing the entry of one rank changes the total by the difference.
pub proof fn total_after_update(t: Seq<usize>, r: int, n: usize, bound: int)
    requires
        0 <= r < t.len(),
        bound <= t.len(),
    ensures
        total(t.update(r, n), bound) == if r < bound {
            total(t, bound) - t[r] + n
        } else {
            total(t, bound) as int
        },
        r < bound ==> total(t, bound) >= t[r],
    decreases bound,
{
    if bound > 0 {
        total_after_update(t, r, n, bound - 1);
    }
}

/// A tally without occurrences has a total of zero.
pub proof fn total_of_none(t: Seq<usize>, bound: int)
    requires
        bound <= t.len(),
        forall|r: int| 0 <= r < bound ==> t[r] == 0,
    ensures
        total(t, bound) == 0,
    decreases bound,
{
    if bound > 0 {
        total_of_none(t, bound - 1);
    }
}

/// Adding one item to a sequence raises the count of that item by one and
/// leaves every other count as it was.
pub proof fn count_after_push<A>(s: Seq<A>, a: A, b: A)
    ensures
        s.push(a).to_multiset().count(b) == s.to_multiset().count(b) + if a == b {
            1nat
        } else {
            0nat
        },
{
    broadcast use vstd::seq_lib::group_to_multiset_ensures;

    assert(s.push(a).to_multiset() =~= s.to_multiset().insert(a));
}

/// A table of `RANK_SPACE` zeroes.
pub fn empty_tally() -> (t: Vec<usize>)
    ensures
        t.len() == 256,
        forall|r: int| 0 <= r < 256 ==> t[r] == 0,
        total(t@, 256) == 0,
{
    let mut t: Vec<usize> = Vec::new();
    while t.len() < RANK_SPACE
        invariant
            t.len() <= 256,
            forall|r: int| 0 <= r < t.len() ==> t[r] == 0,
        decreases 256 - t.len(),
    {
        t.push(0);
    }
    proof {
        total_of_none(t@, 256);
    }
    t
}

/// Tallies a list of ranks.
pub fn tally_ranks(ranks: &Vec<u8>) -> (t: Vec<usize>)
    ensures
        t@ == tally_of(ranks@),
        forall|r: u8| #[trigger] t[r as int] == ranks@.to_multiset().count(r),
        total(t@, 256) == ranks.len(),
{
    let mut t = empty_tally();
    let mut i: usize = 0;
    proof {
        broadcast use vstd::seq_lib::group_to_multiset_ensures;

        assert(ranks@.take(0).to_multiset().len() == 0);
    }
    while i < ranks.len()
        invariant
            i <= ranks.len(),
            t.len() == 256,
            total(t@, 256) == i,
            forall|r: u8|
                t[r as int] <= i && #[trigger] t[r as int] == ranks@.take(
                    i as int,
                ).to_multiset().count(r),
        decreases ranks.len() - i,
    {
        let r = ranks[i];
        proof {
            assert(ranks@.take(i + 1) =~= ranks@.take(i as int).push(r));
            assert forall|q: u8| #[trigger]
                ranks@.take(i + 1).to_multiset().count(q) == ranks@.take(
                    i as int,
                ).to_multiset().count(q) + if q == r {
                    1nat
                } else {
                    0nat
                } by {
                count_after_push(ranks@.take(i as int), r, q);
            }
        }
        let n: usize = t[r as usize];
        proof {
            total_after_update(t@, r as int, (n + 1) as usize, 256);
        }
        t.set(r as usize, n + 1);
        i = i + 1;
    }
    proof {
        assert(ranks@.take(i as int) =~= ranks@);
        assert(t@ =~= tally_of(ranks@));
    }
    t
}

/// The highest rank below `limit` that occurs at least `n` times in the
/// tally, if any. With a limit of `RANK_SPACE` every rank is considered.
pub fn highest_with_count(t: &Vec<usize>, n: usize, limit: usize) -> (found: Option<u8>)
    requires
        t.len() == 256,
        limit <= 256,
    ensures
        found == highest_with(t@, n as nat, limit as int),
{
    let mut bound: usize = limit;
    while bound > 0
        invariant
            bound <= limit <= 256,
            t.len() == 256,
            highest_with(t@, n as nat, limit as int) == highest_with(t@, n as nat, bound as int),
        decreases bound,
    {
        if t[bound - 1] >= n {
            return Some((bound - 1) as u8);
        }
        bound = bound - 1;
    }
    None
}

/// The `k` highest ranks that occur in the tally, highest first, each listed
/// once; fewer where the tally holds fewer.
pub fn highest_ranks(t: &Vec<usize>, k: usize) -> (out: Vec<u8>)
    requires
        t.len() == 256,
    ensures
        out@ == top_ranks(t@, 256, k as nat),
{
    let mut out: Vec<u8> = Vec::new();
    let mut bound: usize = RANK_SPACE;
    proof {
        assert(Seq::<u8>::empty() + top_ranks(t@, 256, k as nat) =~= top_ranks(t@, 256, k as nat));
    }
    while bound > 0 && out.len() < k
        invariant
            bound <= 256,
            t.len() == 256,
            out.len() <= k,
            out@ + top_ranks(t@, bound as int, (k - out.len()) as nat) == top_ranks(
                t@,
                256,
                k as nat,
            ),
        decreases bound,
    {
        let ghost before = out@;
        let ghost rest = top_ranks(t@, bound as int, (k - out.len()) as nat);
        if t[bound - 1] > 0 {
            out.push((bound - 1) as u8);
            proof {
                let tail = top_ranks(t@, bound - 1, (k - out.len()) as nat);
                assert(rest == seq![(bound - 1) as u8] + tail);
                assert(out@ + tail =~= before + rest);
            }
        }
        bound = bound - 1;
    }
    proof {
        assert(top_ranks(t@, bound as int, (k - out.len()) as nat) =~= Seq::<u8>::empty());
        assert(out@ + Seq::<u8>::empty() =~= out@);
    }
    out
}

/// A copy of the tally in which rank `r` no longer occurs.
pub fn without(t: &Vec<usize>, r: u8) -> (out: Vec<usize>)
    requires
        t.len() == 256,
    ensures
        out@ == t@.update(r as int, 0),
{
    let mut out: Vec<usize> = Vec::new();
    while out.len() < RANK_SPACE
        invariant
            t.len() == 256,
            out.len() <= 256,
            forall|q: int| 0 <= q < out.len() ==> out[q] == t@.update(r as int, 0)[q],
        decreases 256 - out.len(),
    {
        let q: usize = out.len();
        if q == r as usize {
            out.push(0);
        } else {
            out.push(t[q]);
        }
    }
    proof {
        assert(out@ =~= t@.update(r as int, 0));
    }
    out
}

/// Whether the five ranks that end at `high` all occur in the tally.
pub fn has_straight_at(t: &Vec<usize>, high: u8) -> (yes: bool)
    requires
        t.len() == 256,
    ensures
        yes == straight_at(t@, high as int),
{
    let h: usize = high as usize;
    let run = h >= 4 && t[h] > 0 && t[h - 1] > 0 && t[h - 2] > 0 && t[h - 3] > 0 && t[h - 4] > 0;
    let wheel = h == 5 && t[14] > 0 && t[2] > 0 && t[3] > 0 && t[4] > 0 && t[5] > 0;
    run || wheel
}

/// The high rank of the best straight that the tally holds, if any. The wheel
/// counts as a straight with high rank 5.
pub fn best_straight(t: &Vec<usize>) -> (found: Option<u8>)
    requires
        t.len() == 256,
    ensures
        found == straight_high(t@, 256),
{
    let mut bound: usize = RANK_SPACE;
    while bound > 0
        invariant
            bound <= 256,
            t.len() == 256,
            straight_high(t@, 256) == straight_high(t@, bound as int),
        decreases bound,
    {
        if has_straight_at(t, (bound - 1) as u8) {
            return Some((bound - 1) as u8);
        }
        bound = bound - 1;
    }
    None
}

/// Whether a sequence of ranks never rises.
pub open spec fn descending(s: Seq<u8>) -> bool {
    forall|i: int, j: int| 0 <= i < j < s.len() ==> s[i] >= s[j]
}

impl Hand {
    /// The ranks of the hand's cards, highest first, each as often as the
    /// hand holds cards of that rank.
    pub fn ranks(&self) -> (out: Vec<u8>)
        ensures
            descending(out@),
            forall|r: u8| #[trigger] out@.to_multiset().count(r) == rank_count(self@, r),
            tally_of(out@) == rank_tally(self@),
            out.len() == self.cards.len(),
    {
        let t = self.rank_tally();
        let mut out: Vec<u8> = Vec::new();
        let mut bound: usize = RANK_SPACE;
        proof {
            broadcast use vstd::seq_lib::group_to_multiset_ensures;

            assert(out@.to_multiset().len() == 0);
        }
        while bound > 0
            invariant
                bound <= 256,
                t.len() == 256,
                out.len() + total(t@, bound as int) == self.cards.len(),
                forall|r: u8| #[trigger] t[r as int] == rank_count(self@, r),
                descending(out@),
                forall|i: int| 0 <= i < out.len() ==> out[i] >= bound,
                forall|r: u8|
                    #[trigger] out@.to_multiset().count(r) == if r >= bound {
                        rank_count(self@, r)
                    } else {
                        0
                    },
            decreases bound,
        {
            let rank: u8 = (bound - 1) as u8;
            let mut n: usize = 0;
            while n < t[bound - 1]
                invariant
                    0 < bound <= 256,
                    rank == bound - 1,
                    t.len() == 256,
                    out.len() + total(t@, bound as int) == self.cards.len() + n,
                    forall|r: u8| #[trigger] t[r as int] == rank_count(self@, r),
                    n <= t[bound - 1],
                    descending(out@),
                    forall|i: int| 0 <= i < out.len() ==> out[i] >= rank,
                    forall|r: u8|
                        #[trigger] out@.to_multiset().count(r) == if r >= bound {
                            rank_count(self@, r)
                        } else if r == rank {
                            n as nat
                        } else {
                            0
                        },
                decreases t[bound - 1] - n,
            {
                proof {
                    assert forall|r: u8| #[trigger]
                        out@.push(rank).to_multiset().count(r) == out@.to_multiset().count(r)
                            + if r == rank {
                            1nat
                        } else {
                            0nat
                        } by {
                        count_after_push(out@, rank, r);
                    }
                }
                out.push(rank);
                n = n + 1;
            }
            bound = bound - 1;
        }
        proof {
            assert(tally_of(out@) =~= rank_tally(self@));
        }
        out
    }

    /// Tallies the ranks of the hand's cards, whatever their suits.
    pub fn rank_tally(&self) -> (t: Vec<usize>)
        ensures
            t@ == rank_tally(self@),
            forall|r: u8| #[trigger] t[r as int] == rank_count(self@, r),
            total(t@, 256) == self.cards.len(),
    {
        let mut t = empty_tally();
        let mut i: usize = 0;
        proof {
            broadcast use vstd::seq_lib::group_to_multiset_ensures;

            assert(self.cards@.take(0).to_multiset().len() == 0);
        }
        while i < self.cards.len()
            invariant
                i <= self.cards.len(),
                t.len() == 256,
                total(t@, 256) == i,
                forall|r: u8|
                    t[r as int] <= i && #[trigger] t[r as int] == rank_count(
                        self.cards@.take(i as int).to_multiset(),
                        r,
                    ),
            decreases self.cards.len() - i,
        {
            let c = self.cards[i];
            proof {
                let before = self.cards@.take(i as int);
                assert(self.cards@.take(i + 1) =~= before.push(c));
                assert forall|q: u8| #[trigger]
                    rank_count(before.push(c).to_multiset(), q) == rank_count(
                        before.to_multiset(),
                        q,
                    ) + if q == c.rank {
                        1nat
                    } else {
                        0nat
                    } by {
                    count_after_push(before, c, Card { rank: q, suit: Suit::Clubs });
                    count_after_push(before, c, Card { rank: q, suit: Suit::Diamonds });
                    count_after_push(before, c, Card { rank: q, suit: Suit::Hearts });
                    count_after_push(before, c, Card { rank: q, suit: Suit::Spades });
                }
            }
            let n: usize = t[c.rank as usize];
            proof {
                total_after_update(t@, c.rank as int, (n + 1) as usize, 256);
            }
            t.set(c.rank as usize, n + 1);
            i = i + 1;
        }
        proof {
            assert(self.cards@.take(i as int) =~= self.cards@);
            assert(t@ =~= rank_tally(self@));
        }
        t
    }

    /// Tallies the ranks of the hand's cards of one suit.
    pub fn suit_tally(&self, suit: Suit) -> (t: Vec<usize>)
        ensures
            t@ == suit_tally(self@, suit),
            forall|r: u8| #[trigger] t[r as int] == self@.count(Card { rank: r, suit }),
    {
        let mut t = empty_tally();
        let mut i: usize = 0;
        proof {
            broadcast use vstd::seq_lib::group_to_multiset_ensures;

            assert(self.cards@.take(0).to_multiset().len() == 0);
        }
        while i < self.cards.len()
            invariant
                i <= self.cards.len(),
                t.len() == 256,
                forall|r: u8|
                    t[r as int] <= i && #[trigger] t[r as int] == self.cards@.take(
                        i as int,
                    ).to_multiset().count(Card { rank: r, suit }),
            decreases self.cards.len() - i,
        {
            let c = self.cards[i];
            proof {
                let before = self.cards@.take(i as int);
                assert(self.cards@.take(i + 1) =~= before.push(c));
                assert forall|q: u8| #[trigger]
                    before.push(c).to_multiset().count(Card { rank: q, suit })
                        == before.to_multiset().count(Card { rank: q, suit }) + if q == c.rank
                        && c.suit == suit {
                        1nat
                    } else {
                        0nat
                    } by {
                    count_after_push(before, c, Card { rank: q, suit });
                }
            }
            if c.suit == suit {
                let n: usize = t[c.rank as usize];
                t.set(c.rank as usize, n + 1);
            }
            i = i + 1;
        }
        proof {
            assert(self.cards@.take(i as int) =~= self.cards@);
            assert(t@ =~= suit_tally(self@, suit));
        }
        t
    }
}

} // verus!
