//! The order of strength among evaluated hands.

use vstd::prelude::*;
use crate::category::{Rank, Ranks};

verus! {

/// The lexicographic order of two signatures from position `i` on: negative
/// where the first is weaker, zero where they agree, positive where the first
/// is stronger. The first position at which they differ decides; a signature
/// that ends where the other goes on is the weaker one.
pub open spec fn signature_order(a: Seq<u8>, b: Seq<u8>, i: int) -> int
    decreases a.len() - i,
{
    if i < 0 {
        0
    } else if i >= a.len() {
        if i >= b.len() {
            0
        } else {
            -1
        }
    } else if i >= b.len() {
        1
    } else if a[i] < b[i] {
        -1
    } else if a[i] > b[i] {
        1
    } else {
        signature_order(a, b, i + 1)
    }
}

/// The order of two evaluated hands: by category first, then by signature.
pub open spec fn order(x: (Ranks, Seq<u8>), y: (Ranks, Seq<u8>)) -> int {
    if x.0.strength() < y.0.strength() {
        -1
    } else if x.0.strength() > y.0.strength() {
        1
    } else {
        signature_order(x.1, y.1, 0)
    }
}

/// Swapping the two signatures turns their order round.
pub proof fn signature_order_mirrors(a: Seq<u8>, b: Seq<u8>, i: int)
    requires
        0 <= i,
    ensures
        signature_order(a, b, i) == -signature_order(b, a, i),
    decreases a.len() - i,
{
    if i < a.len() && i < b.len() && a[i] == b[i] {
        signature_order_mirrors(a, b, i + 1);
    }
}

/// Two signatures are level from `i` on exactly when they have the same
/// length and the same ranks from `i` on.
pub proof fn signature_order_level(a: Seq<u8>, b: Seq<u8>, i: int)
    requires
        0 <= i,
    ensures
        signature_order(a, b, i) == 0 <==> (a.len() <= i && b.len() <= i) || (a.len() == b.len()
            && forall|j: int| i <= j < a.len() ==> a[j] == b[j]),
    decreases a.len() - i,
{
    if i < a.len() && i < b.len() && a[i] == b[i] {
        signature_order_level(a, b, i + 1);
    }
}

/// The order of signatures is transitive.
pub proof fn signature_order_chains(a: Seq<u8>, b: Seq<u8>, c: Seq<u8>, i: int)
    requires
        0 <= i,
        signature_order(a, b, i) <= 0,
        signature_order(b, c, i) <= 0,
    ensures
        signature_order(a, c, i) <= 0,
        signature_order(a, b, i) < 0 || signature_order(b, c, i) < 0 ==> signature_order(a, c, i)
            < 0,
    decreases a.len() - i,
{
    if i < a.len() && i < b.len() && i < c.len() && a[i] == b[i] && b[i] == c[i] {
        signature_order_chains(a, b, c, i + 1);
    }
}

/// Every evaluated hand is level with itself.
pub proof fn order_reflexive(x: (Ranks, Seq<u8>))
    ensures
        order(x, x) == 0,
{
    signature_order_level(x.1, x.1, 0);
}

/// Swapping two hands turns their order round, so that one is stronger
/// exactly when the other is weaker.
pub proof fn order_mirrors(x: (Ranks, Seq<u8>), y: (Ranks, Seq<u8>))
    ensures
        order(x, y) == -order(y, x),
{
    signature_order_mirrors(x.1, y.1, 0);
}

/// Two hands are level, a tie, exactly when they have the same category
/// and the same signature. So two hands of which neither is stronger are
/// equal.
pub proof fn order_level_is_equal(x: (Ranks, Seq<u8>), y: (Ranks, Seq<u8>))
    ensures
        order(x, y) == 0 <==> x == y,
        order(x, y) <= 0 && order(y, x) <= 0 ==> x == y,
{
    signature_order_level(x.1, y.1, 0);
    signature_order_mirrors(x.1, y.1, 0);
    if order(x, y) == 0 {
        assert(x.1 =~= y.1);
    }
}

/// The order is transitive: a hand that is no stronger than a second, which
/// is no stronger than a third, is no stronger than the third, and is weaker
/// than the third where either step is strict.
pub proof fn order_transitive(x: (Ranks, Seq<u8>), y: (Ranks, Seq<u8>), z: (Ranks, Seq<u8>))
    requires
        order(x, y) <= 0,
        order(y, z) <= 0,
    ensures
        order(x, z) <= 0,
        order(x, y) < 0 || order(y, z) < 0 ==> order(x, z) < 0,
{
    if x.0.strength() == y.0.strength() && y.0.strength() == z.0.strength() {
        signature_order_chains(x.1, y.1, z.1, 0);
    }
}

/// Any two hands can be put in order: one is weaker, or they are level, or
/// one is stronger.
pub proof fn order_total(x: (Ranks, Seq<u8>), y: (Ranks, Seq<u8>))
    ensures
        order(x, y) == -1 || order(x, y) == 0 || order(x, y) == 1,
{
    signature_order_three_values(x.1, y.1, 0);
}

/// The order of two signatures is one of -1, 0 and 1.
pub proof fn signature_order_three_values(a: Seq<u8>, b: Seq<u8>, i: int)
    ensures
        signature_order(a, b, i) == -1 || signature_order(a, b, i) == 0 || signature_order(a, b, i)
            == 1,
    decreases a.len() - i,
{
    if 0 <= i < a.len() && i < b.len() && a[i] == b[i] {
        signature_order_three_values(a, b, i + 1);
    }
}

/// The order of two evaluated hands as a number: -1 where `a` is weaker, 0
/// where they tie, 1 where `a` is stronger.
pub fn order_of(a: &Rank, b: &Rank) -> (o: i8)
    ensures
        o == order(a@, b@),
{
    let x: u8 = a.rank.index();
    let y: u8 = b.rank.index();
    if x < y {
        return -1;
    }
    if x > y {
        return 1;
    }
    let mut i: usize = 0;
    while i < a.signature.len() && i < b.signature.len()
        invariant
            order(a@, b@) == signature_order(a.signature@, b.signature@, i as int),
        decreases a.signature.len() - i,
    {
        if a.signature[i] < b.signature[i] {
            return -1;
        }
        if a.signature[i] > b.signature[i] {
            return 1;
        }
        i = i + 1;
    }
    if i < b.signature.len() {
        -1
    } else if i < a.signature.len() {
        1
    } else {
        0
    }
}

} // verus!
