//! Reversort: selection sort that brings each minimum to the front of
//! the unsorted suffix by reversing a prefix of it.

use vstd::prelude::*;

verus! {

/// Sort in place by repeated reversal of the window up to the minimum.
pub fn reversort(a: &mut [i64])
    requires
        old(a)@.len() >= 1,
    ensures
        final(a)@.len() == old(a)@.len(),
{
    let n = a.len();
    let mut i: usize = 0;
    while i < n - 1
        invariant
            n == a@.len() >= 1,
            i <= n,
        decreases n - 1 - i,
    {
        // index of the minimum of the suffix
        let mut mi = i;
        let mut k = i + 1;
        while k < n
            invariant
                i <= mi < n == a@.len(),
                i < k <= n || k == i + 1,
                k <= n,
            decreases n - k,
        {
            if a[k] < a[mi] {
                mi = k;
            }
            k = k + 1;
        }
        // reverse a[i..mi + 1]
        let mut lo = i;
        let mut hi = mi;
        while lo < hi
            invariant
                lo <= hi || lo == hi + 1,
                hi < n == a@.len(),
            decreases hi + 1 - lo,
        {
            let t = a[lo];
            a[lo] = a[hi];
            a[hi] = t;
            lo = lo + 1;
            hi = hi - 1;
        }
        i = i + 1;
    }
}

} // verus!
