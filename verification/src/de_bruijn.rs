//! De Bruijn sequence generation over a digit alphabet, by the recursive
//! Lyndon-word construction.

use vstd::prelude::*;

verus! {

/// All produced symbols are below the alphabet size.
pub open spec fn symbols_ok(s: Seq<usize>, k: int) -> bool {
    forall|i: int| 0 <= i < s.len() ==> #[trigger] s[i] < k
}

/// The recursive generator: extends the working word `a` and collects
/// each completed Lyndon word whose length divides `n`.
fn db(a: &mut Vec<usize>, sequence: &mut Vec<usize>, t: usize, p: usize, k: usize, n: usize)
    requires
        2 <= k,
        1 <= n,
        1 <= p <= t,
        t <= n + 1,
        n + 1 <= old(a).len(),
        symbols_ok(old(a)@, k as int),
        symbols_ok(old(sequence)@, k as int),
    ensures
        final(a)@.len() == old(a)@.len(),
        symbols_ok(final(a)@, k as int),
        symbols_ok(final(sequence)@, k as int),
    decreases n + 1 - t, k,
{
    if t > n {
        if n % p == 0 {
            proof {
                if p > n {
                    vstd::arithmetic::div_mod::lemma_small_mod(n as nat, p as nat);
                    assert(false);
                }
            }
            let mut idx: usize = 1;
            while idx < p + 1
                invariant
                    p + 1 <= a.len(),
                    1 <= idx <= p + 1,
                    a@ == old(a)@,
                    symbols_ok(a@, k as int),
                    symbols_ok(sequence@, k as int),
                decreases p + 1 - idx,
            {
                sequence.push(a[idx]);
                idx = idx + 1;
            }
        }
    } else {
        let x = a[t - p];
        a[t] = x;
        db(a, sequence, t + 1, p, k, n);
        let mut j = x + 1;
        while j < k
            invariant
                x < k,
                x + 1 <= j <= k,
                2 <= k,
                1 <= n,
                1 <= p <= t <= n,
                n + 1 <= a.len(),
                a@.len() == old(a)@.len(),
                symbols_ok(a@, k as int),
                symbols_ok(sequence@, k as int),
            decreases k - j,
        {
            a[t] = j;
            proof {
                assert(symbols_ok(a@, k as int));
            }
            db(a, sequence, t + 1, t, k, n);
            proof {
                assert(symbols_ok(a@, k as int));
            }
            j = j + 1;
        }
    }
}

/// The de Bruijn sequence for words of length `n` over the first `k`
/// decimal digits, as a string of digit characters.
pub fn de_bruijn(k: u8, n: usize) -> (r: String)
    requires
        2 <= k <= 10,
        n * (k as nat) + 1 <= usize::MAX,
    ensures
        forall|i: int|
            #![trigger r@[i]]
            0 <= i < r@.len() ==> 48 <= (r@[i] as u32) && (r@[i] as u32) < 48 + k,
{
    let kk = k as usize;
    let mut a: Vec<usize> = Vec::new();
    while a.len() < kk * n + 1
        invariant
            kk == k,
            2 <= k,
            n * kk + 1 <= usize::MAX,
            a@.len() <= kk * n + 1,
            symbols_ok(a@, k as int),
        decreases kk * n + 1 - a@.len(),
    {
        a.push(0);
    }
    let mut sequence: Vec<usize> = Vec::new();
    if n >= 1 {
        proof {
            assert(n + 1 <= kk * n + 1) by (nonlinear_arith)
                requires
                    kk >= 2,
                    n >= 1,
            ;
            assert(a@.len() <= usize::MAX) by {
                assert(a.len() == a@.len());
            }
        }
        db(&mut a, &mut sequence, 1, 1, kk, n);
    }
    let mut out = String::new();
    let mut i: usize = 0;
    while i < sequence.len()
        invariant
            symbols_ok(sequence@, k as int),
            k <= 10,
            forall|x: int|
                #![trigger out@[x]]
                0 <= x < out@.len() ==> 48 <= (out@[x] as u32) && (out@[x] as u32) < 48 + k,
        decreases sequence@.len() - i,
    {
        let d = sequence[i];
        let c = (48 + d as u8) as char;
        proof {
            assert(c as u32 == 48 + d);
        }
        crate::strings::push_char_pub(&mut out, c);
        i = i + 1;
    }
    out
}

} // verus!
