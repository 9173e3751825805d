//! The showdown: the winners among any number of evaluated hands, and the
//! place of each hand.

use vstd::prelude::*;
use crate::category::Rank;
use crate::order::{order, order_level_is_equal, order_mirrors, order_of, order_transitive};

verus! {

/// The outcome of a showdown. Hands are named by their position in the list
/// that was ranked.
#[derive(Clone, Debug, PartialEq, Eq)]
pub struct Showdown {
    /// The hands that no other hand beats, in the order of the list. More
    /// than one means a split pot.
    pub winners: Vec<usize>,
    /// For each hand, the number of hands that beat it: 0 for a winner. Hands
    /// that tie share a place.
    pub places: Vec<usize>,
}

/// Whether no hand of the list is stronger than hand `i`.
pub open spec fn is_winner(hands: Seq<Rank>, i: int) -> bool {
    0 <= i < hands.len() && forall|j: int|
        0 <= j < hands.len() ==> order((#[trigger] hands[j])@, hands[i]@) <= 0
}

/// The number of hands among the first `n` that are stronger than hand `i`.
pub open spec fn stronger_among(hands: Seq<Rank>, i: int, n: int) -> nat
    decreases n,
{
    if n <= 0 {
        0
    } else {
        stronger_among(hands, i, n - 1) + if order(hands[n - 1]@, hands[i]@) > 0 {
            1nat
        } else {
            0nat
        }
    }
}

/// No hand among the first `n` beats hand `i` exactly when the count of
/// stronger hands among them is zero; the count never exceeds `n`.
pub proof fn none_stronger_is_zero(hands: Seq<Rank>, i: int, n: int)
    requires
        0 <= n <= hands.len(),
        0 <= i < hands.len(),
    ensures
        stronger_among(hands, i, n) <= n,
        stronger_among(hands, i, n) == 0 <==> forall|j: int|
            0 <= j < n ==> order((#[trigger] hands[j])@, hands[i]@) <= 0,
    decreases n,
{
    if n > 0 {
        none_stronger_is_zero(hands, i, n - 1);
    }
}

/// Among the first `n` hands of a list there is one that none of them beats.
pub proof fn strongest_among(hands: Seq<Rank>, n: int) -> (i: int)
    requires
        0 < n <= hands.len(),
    ensures
        0 <= i < n,
        forall|j: int| 0 <= j < n ==> order((#[trigger] hands[j])@, hands[i]@) <= 0,
    decreases n,
{
    let last = n - 1;
    order_level_is_equal(hands[last]@, hands[last]@);
    if n == 1 {
        last
    } else {
        let before = strongest_among(hands, n - 1);
        if order(hands[last]@, hands[before]@) <= 0 {
            before
        } else {
            order_mirrors(hands[last]@, hands[before]@);
            assert forall|j: int| 0 <= j < n implies order((#[trigger] hands[j])@, hands[last]@)
                <= 0 by {
                if j < last {
                    order_transitive(hands[j]@, hands[before]@, hands[last]@);
                }
            }
            last
        }
    }
}

/// Every showdown with at least one hand has a winner.
pub proof fn some_hand_wins(hands: Seq<Rank>)
    requires
        hands.len() > 0,
    ensures
        exists|i: int| is_winner(hands, i),
{
    let i = strongest_among(hands, hands.len() as int);
    assert(is_winner(hands, i));
}

/// The winners of a showdown tie with each other: they have the same
/// category and the same signature, and split the pot.
pub proof fn winners_tie(hands: Seq<Rank>, i: int, j: int)
    requires
        is_winner(hands, i),
        is_winner(hands, j),
    ensures
        hands[i]@ == hands[j]@,
        order(hands[i]@, hands[j]@) == 0,
{
    assert(order(hands[j]@, hands[i]@) <= 0);
    assert(order(hands[i]@, hands[j]@) <= 0);
    order_level_is_equal(hands[i]@, hands[j]@);
}

/// The number of hands of the list that beat hand `i`.
pub fn count_stronger(hands: &Vec<Rank>, i: usize) -> (n: usize)
    requires
        i < hands.len(),
    ensures
        n == stronger_among(hands@, i as int, hands.len() as int),
{
    let mut n: usize = 0;
    let mut j: usize = 0;
    while j < hands.len()
        invariant
            j <= hands.len(),
            i < hands.len(),
            n <= j,
            n == stronger_among(hands@, i as int, j as int),
        decreases hands.len() - j,
    {
        if order_of(&hands[j], &hands[i]) > 0 {
            n = n + 1;
        }
        j = j + 1;
    }
    n
}

/// Ranks the hands of a showdown: the winners are the hands that no other
/// hand beats, and each hand's place is the number of hands that beat it.
pub fn rank_hands(hands: &Vec<Rank>) -> (res: Showdown)
    ensures
        res.places.len() == hands.len(),
        hands.len() > 0 ==> res.winners.len() > 0,
        forall|i: int|
            0 <= i < hands.len() ==> #[trigger] res.places[i] == stronger_among(
                hands@,
                i,
                hands.len() as int,
            ),
        forall|k: int|
            0 <= k < res.winners.len() ==> is_winner(hands@, (#[trigger] res.winners[k]) as int),
        forall|k: int, l: int|
            0 <= k < l < res.winners.len() ==> res.winners[k] < res.winners[l],
        forall|i: int|
            #![trigger is_winner(hands@, i)]
            is_winner(hands@, i) ==> exists|k: int|
                0 <= k < res.winners.len() && #[trigger] res.winners[k] == i,
{
    let mut winners: Vec<usize> = Vec::new();
    let mut places: Vec<usize> = Vec::new();
    let mut i: usize = 0;
    while i < hands.len()
        invariant
            i <= hands.len(),
            places.len() == i,
            forall|p: int|
                0 <= p < i ==> #[trigger] places[p] == stronger_among(
                    hands@,
                    p,
                    hands.len() as int,
                ),
            forall|k: int|
                0 <= k < winners.len() ==> (#[trigger] winners[k]) < i && is_winner(
                    hands@,
                    winners[k] as int,
                ),
            forall|k: int, l: int| 0 <= k < l < winners.len() ==> winners[k] < winners[l],
            forall|p: int|
                #![trigger is_winner(hands@, p)]
                0 <= p < i && is_winner(hands@, p) ==> exists|k: int|
                    0 <= k < winners.len() && #[trigger] winners[k] == p,
        decreases hands.len() - i,
    {
        let n = count_stronger(hands, i);
        proof {
            none_stronger_is_zero(hands@, i as int, hands.len() as int);
        }
        places.push(n);
        let ghost before = winners@;
        if n == 0 {
            winners.push(i);
        }
        proof {
            assert forall|p: int|
                #![trigger is_winner(hands@, p)]
                0 <= p < i + 1 && is_winner(hands@, p) implies exists|k: int|
                0 <= k < winners.len() && #[trigger] winners[k] == p by {
                if p < i {
                    let k = choose|k: int| 0 <= k < before.len() && #[trigger] before[k] == p;
                    assert(winners[k] == p);
                } else {
                    assert(winners[winners.len() - 1] == p);
                }
            }
        }
        i = i + 1;
    }
    let ghost found = winners@;
    let res = Showdown { winners, places };
    proof {
        assert forall|q: int|
            #![trigger is_winner(hands@, q)]
            is_winner(hands@, q) implies exists|k: int|
            0 <= k < res.winners.len() && #[trigger] res.winners[k] == q by {
            let k = choose|k: int| 0 <= k < found.len() && #[trigger] found[k] == q;
            assert(res.winners[k] == q);
        }
        if hands.len() > 0 {
            some_hand_wins(hands@);
        }
    }
    res
}

} // verus!
