//! The comparison of two evaluated hands.

use std::cmp::Ordering;
use vstd::prelude::*;
use crate::category::Rank;
use crate::order::{order, order_of};

verus! {

/// Compares two evaluated hands: by category first, then by signature, rank
/// by rank. `Equal` means a tie.
pub fn compare(a: &Rank, b: &Rank) -> (res: Ordering)
    ensures
        match res {
            Ordering::Less => order(a@, b@) < 0,
            Ordering::Equal => order(a@, b@) == 0,
            Ordering::Greater => order(a@, b@) > 0,
        },
{
    let o: i8 = order_of(a, b);
    if o < 0 {
        Ordering::Less
    } else if o > 0 {
        Ordering::Greater
    } else {
        Ordering::Equal
    }
}

} // verus!
