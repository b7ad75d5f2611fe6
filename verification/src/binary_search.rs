//! Binary search over a sorted slice, returning the index of a match or
//! `-1` when the value is absent.

use vstd::prelude::*;

verus! {

/// Whether a slice is sorted in non-decreasing order.
pub open spec fn sorted(s: Seq<i64>) -> bool {
    forall|i: int, j: int| 0 <= i <= j < s.len() ==> s[i] <= s[j]
}

/// Classic binary search.  Requires a sorted slice; returns some index
/// holding the value, or `-1` exactly when the value does not occur.
pub fn binary_search(a: &[i64], v: &i64) -> (r: isize)
    requires
        sorted(a@),
        a@.len() < 0x7fffffff,
    ensures
        r == -1 ==> forall|k: int| 0 <= k < a@.len() ==> a@[k] != *v,
        r >= 0 ==> r < a@.len() && a@[r as int] == *v,
{
    let mut low: usize = 0;
    let mut high: usize = a.len();
    while high > low
        invariant
            low <= high <= a@.len() < 0x7fffffff,
            sorted(a@),
            forall|k: int| 0 <= k < low ==> a@[k] < *v,
            forall|k: int| high <= k < a@.len() ==> a@[k] > *v,
        decreases high - low,
    {
        let half = low + (high - low) / 2;
        let x = a[half];
        if *v == x {
            return half as isize;
        } else if *v > x {
            low = half + 1;
        } else {
            high = half;
        }
    }
    -1
}

} // verus!
