//! Whole-magnitude multiplication: schoolbook long multiplication, and a
//! size-gated recursive Karatsuba multiplication that splits both operands
//! at the half-length of the shorter one.

use vstd::prelude::*;
use vstd::arithmetic::power2::*;
use crate::limbs::{
    add_at, add_to, clear_win, lemma_mul_fits, lemma_val_bound, lemma_val_lower, lemma_win_empty,
    lemma_win_hi, lemma_win_split, mul_limb_at, sub_at, trim_win, trimmed, win, zeros,
};

verus! {

/// `x <= y` implies `a * x <= a * y`.
proof fn lemma_mul_le(a: nat, x: nat, y: nat)
    requires
        x <= y,
    ensures
        a * x <= a * y,
{
    assert(a * x <= a * y) by (nonlinear_arith)
        requires
            x <= y,
    ;
}

/// Cancel a common power-of-two factor in a strict bound.
proof fn lemma_pow2_cancel(u: nat, e1: nat, e2: nat)
    requires
        u * pow2(e1) < pow2(e1 + e2),
    ensures
        u < pow2(e2),
{
    lemma_pow2_adds(e1, e2);
    lemma_pow2_pos(e1);
    lemma_pow2_pos(e2);
    if u >= pow2(e2) {
        assert(u * pow2(e1) >= pow2(e1) * pow2(e2)) by (nonlinear_arith)
            requires
                u >= pow2(e2),
                pow2(e1) > 0,
        ;
        assert(false);
    }
}

/// Only the window `[mid, hi)` of `out` changed: lift the value change to
/// the enclosing window `[off, hi)`.
proof fn lemma_lift(prev: Seq<u64>, cur: Seq<u64>, off: int, mid: int, hi: int)
    requires
        prev.len() == cur.len(),
        0 <= off <= mid <= hi <= cur.len(),
        forall|k: int| 0 <= k < cur.len() && !(mid <= k < hi) ==> cur[k] == prev[k],
    ensures
        win(cur, off, hi) + win(prev, mid, hi) * pow2(64 * (mid - off) as nat) == win(
            prev,
            off,
            hi,
        ) + win(cur, mid, hi) * pow2(64 * (mid - off) as nat),
{
    lemma_win_split(prev, off, mid, hi);
    lemma_win_split(cur, off, mid, hi);
    assert(cur.subrange(off, mid) =~= prev.subrange(off, mid));
}

/// Schoolbook long multiplication: for each limb of `b`, scale the window
/// of `a` and accumulate into `out` at the matching offset.
pub(crate) fn mul_long_at(
    a: &Vec<u64>,
    alo: usize,
    ahi: usize,
    b: &Vec<u64>,
    blo: usize,
    bhi: usize,
    out: &mut Vec<u64>,
    off: usize,
    hi: usize,
)
    requires
        alo <= ahi <= a.len(),
        blo <= bhi <= b.len(),
        off + (ahi - alo) + (bhi - blo) <= hi <= old(out).len(),
        win(old(out)@, off as int, hi as int) + win(a@, alo as int, ahi as int) * win(
            b@,
            blo as int,
            bhi as int,
        ) < pow2(64 * (hi - off) as nat),
    ensures
        final(out)@.len() == old(out)@.len(),
        forall|k: int|
            0 <= k < final(out)@.len() && !(off <= k < hi) ==> final(out)@[k] == old(out)@[k],
        win(final(out)@, off as int, hi as int) == win(old(out)@, off as int, hi as int) + win(
            a@,
            alo as int,
            ahi as int,
        ) * win(b@, blo as int, bhi as int),
{
    let ghost o0 = out@;
    let ghost av = win(a@, alo as int, ahi as int);
    let ghost bv = win(b@, blo as int, bhi as int);
    let alen = ahi - alo;
    let blen = bhi - blo;
    proof {
        lemma_win_empty(b@, blo as int);
        assert(av * 0 == 0) by (nonlinear_arith);
    }
    let mut i: usize = 0;
    while i < blen
        invariant
            i <= blen,
            ahi == alo + alen,
            bhi == blo + blen,
            alo + alen <= a.len(),
            blo + blen <= b.len(),
            off + alen + blen <= hi <= out.len(),
            out@.len() == o0.len(),
            av == win(a@, alo as int, ahi as int),
            bv == win(b@, blo as int, bhi as int),
            win(o0, off as int, hi as int) + av * bv < pow2(64 * (hi - off) as nat),
            forall|k: int| 0 <= k < out@.len() && !(off <= k < hi) ==> out@[k] == o0[k],
            win(out@, off as int, hi as int) == win(o0, off as int, hi as int) + av * win(
                b@,
                blo as int,
                blo + i,
            ),
        decreases blen - i,
    {
        let ghost prev = out@;
        let ghost pi = pow2(64 * i as nat);
        proof {
            // the remaining window still has room for this partial product
            lemma_win_split(prev, off as int, off + i, hi as int);
            lemma_win_hi(b@, blo as int, blo + i);
            lemma_win_split(b@, blo as int, blo + i + 1, bhi as int);
            lemma_pow2_pos(64 * ((bhi - blo) - i - 1) as nat);
            assert(win(b@, blo as int, blo + i + 1) <= bv) by {
                lemma_mul_le(
                    win(b@, blo + i + 1, bhi as int),
                    0,
                    win(b@, blo + i + 1, bhi as int),
                );
                assert(win(b@, blo + i + 1, bhi as int) * pow2(64 * (i + 1) as nat) >= 0);
            }
            lemma_mul_le(av, win(b@, blo as int, blo + i + 1), bv);
            // distribute av over the window extension
            assert(av * (win(b@, blo as int, blo + i) + b@[blo + i] as nat * pi) == av * win(
                b@,
                blo as int,
                blo + i,
            ) + av * (b@[blo + i] as nat) * pi) by (nonlinear_arith);
            // package the window bound for the inner call
            let w2 = win(prev, off + i, hi as int);
            let bb = b@[blo + i] as nat;
            let u = w2 + av * bb;
            assert((w2 + av * bb) * pi == w2 * pi + av * bb * pi) by (nonlinear_arith);
            assert(u * pi <= win(prev, off as int, hi as int) + av * bb * pi);
            assert(u * pi < pow2(64 * (hi - off) as nat));
            lemma_pow2_cancel(u, 64 * i as nat, 64 * ((hi - off) - i) as nat);
        }
        mul_limb_at(out, off + i, hi, a, alo, ahi, b[blo + i]);
        i = i + 1;
        proof {
            lemma_lift(prev, out@, off as int, off + i - 1, hi as int);
            lemma_win_hi(b@, blo as int, blo + i - 1);
            let pi1 = pow2(64 * (i - 1) as nat);
            assert(win(out@, off + i - 1, hi as int) == win(prev, off + i - 1, hi as int) + av * (
            b@[blo + i - 1] as nat));
            assert((win(prev, off + i - 1, hi as int) + av * (b@[blo + i - 1] as nat)) * pi1
                == win(prev, off + i - 1, hi as int) * pi1 + av * (b@[blo + i - 1] as nat) * pi1)
                by (nonlinear_arith);
            assert(av * (win(b@, blo as int, blo + i - 1) + b@[blo + i - 1] as nat * pi1) == av
                * win(b@, blo as int, blo + i - 1) + av * (b@[blo + i - 1] as nat) * pi1)
                by (nonlinear_arith);
        }
    }
    proof {
        assert(b@.subrange(blo as int, blo + blen) =~= b@.subrange(blo as int, bhi as int));
    }
}


/// The Karatsuba recombination: splitting both factors at `X` turns the
/// product into three sub-products.
proof fn lemma_karatsuba_identity(a0: nat, a1: nat, b0: nat, b1: nat, x: nat)
    ensures
        (a0 + a1 * x) * (b0 + b1 * x) == a0 * b0 + (a0 * b1 + a1 * b0) * x + (a1 * b1) * (x * x),
        (a0 + a1) * (b0 + b1) == a0 * b0 + (a0 * b1 + a1 * b0) + a1 * b1,
{
    assert((a0 + a1 * x) * (b0 + b1 * x) == a0 * b0 + (a0 * b1 + a1 * b0) * x + (a1 * b1) * (x
        * x)) by (nonlinear_arith);
    assert((a0 + a1) * (b0 + b1) == a0 * b0 + (a0 * b1 + a1 * b0) + a1 * b1) by (nonlinear_arith);
}

/// The sum product placed at weight `X` never exceeds the full product,
/// as long as the top halves carry enough weight.
proof fn lemma_p1_bound(a0: nat, a1: nat, b0: nat, b1: nat, x: nat)
    requires
        a1 * b1 * x >= a0 * b0,
        x >= 1,
    ensures
        (a0 + a1) * (b0 + b1) * x <= (a0 + a1 * x) * (b0 + b1 * x),
{
    let k = a1 * b1 * x;
    let c = a0 * b0;
    assert((a0 + a1 * x) * (b0 + b1 * x) == a0 * b0 + a0 * b1 * x + a1 * b0 * x + a1 * b1 * (x
        * x)) by (nonlinear_arith);
    assert((a0 + a1) * (b0 + b1) * x == a0 * b0 * x + a0 * b1 * x + a1 * b0 * x + a1 * b1 * x)
        by (nonlinear_arith);
    assert(a0 * b0 * x == c * x) by (nonlinear_arith)
        requires
            c == a0 * b0,
    ;
    assert(a1 * b1 * (x * x) == k * x) by (nonlinear_arith)
        requires
            k == a1 * b1 * x,
    ;
    assert(a1 * b1 * x == k);
    assert(k * (x - 1) >= c * (x - 1)) by (nonlinear_arith)
        requires
            k >= c,
            x >= 1,
    ;
    assert(k * (x - 1) == k * x - k) by (nonlinear_arith);
    assert(c * (x - 1) == c * x - c) by (nonlinear_arith);
}

/// Karatsuba multiplication for trimmed windows, the shorter at least four
/// limbs; splits at the half-length of the shorter operand, computes the
/// three sub-products through the recursive entry point, and recombines
/// them in place in an order that neither overflows nor underflows.
#[verifier::rlimit(100)]
#[verifier::spinoff_prover]
pub(crate) fn mul_karatsuba_at(
    a: &Vec<u64>,
    alo: usize,
    ahi: usize,
    b: &Vec<u64>,
    blo: usize,
    bhi: usize,
    out: &mut Vec<u64>,
    off: usize,
    hi: usize,
)
    requires
        alo <= ahi <= a.len(),
        blo <= bhi <= b.len(),
        ahi - alo >= bhi - blo >= 4,
        a@[ahi - 1] != 0,
        b@[bhi - 1] != 0,
        off + (ahi - alo) + (bhi - blo) <= hi <= old(out).len(),
        win(old(out)@, off as int, hi as int) + win(a@, alo as int, ahi as int) * win(
            b@,
            blo as int,
            bhi as int,
        ) < pow2(64 * (hi - off) as nat),
    ensures
        final(out)@.len() == old(out)@.len(),
        forall|k: int|
            0 <= k < final(out)@.len() && !(off <= k < hi) ==> final(out)@[k] == old(out)@[k],
        win(final(out)@, off as int, hi as int) == win(old(out)@, off as int, hi as int) + win(
            a@,
            alo as int,
            ahi as int,
        ) * win(b@, blo as int, bhi as int),
    decreases bhi - blo, 0int,
{
    let ghost o0 = out@;
    let alen = ahi - alo;
    let blen = bhi - blo;
    let len = blen / 2;
    let b1len = blen - len;
    let a1len = alen - len;
    let m = a1len + b1len;
    let tlen = alen + blen;
    let ghost av = win(a@, alo as int, ahi as int);
    let ghost bv = win(b@, blo as int, bhi as int);
    let ghost a0v = win(a@, alo as int, alo + len);
    let ghost a1v = win(a@, alo + len, ahi as int);
    let ghost b0v = win(b@, blo as int, blo + len);
    let ghost b1v = win(b@, blo + len, bhi as int);
    let ghost x = pow2(64 * len as nat);
    let ghost p1 = (a0v + a1v) * (b0v + b1v);
    let ghost p2 = a1v * b1v;
    let ghost p0 = a0v * b0v;
    proof {
        lemma_win_split(a@, alo as int, alo + len, ahi as int);
        lemma_win_split(b@, blo as int, blo + len, bhi as int);
        lemma_pow2_pos(64 * len as nat);
        lemma_karatsuba_identity(a0v, a1v, b0v, b1v, x);
    }
    let i = b1len + 1;
    let j = i + a1len + 1;
    let mut temp = zeros(tlen);
    // sums of the two halves of each operand, each with its own carry slot
    add_to(&mut temp, 0, b, blo + len, bhi, b, blo, blo + len);
    let ghost t1 = temp@;
    add_to(&mut temp, i, a, alo + len, ahi, a, alo, alo + len);
    let bs_end = trim_win(&temp, 0, i);
    let as_end = trim_win(&temp, i, j);
    proof {
        assert(temp@.subrange(0, i as int) =~= t1.subrange(0, i as int));
        assert(win(temp@, 0, bs_end as int) == b1v + b0v);
        assert(win(temp@, i as int, as_end as int) == a1v + a0v);
        // the sum product at weight x fits under the full product
        assert(p2 * x >= p0) by {
            lemma_val_lower(a@.subrange(alo + len, ahi as int));
            lemma_val_lower(b@.subrange(blo + len, bhi as int));
            lemma_val_bound(a@.subrange(alo as int, alo + len));
            lemma_val_bound(b@.subrange(blo as int, blo + len));
            lemma_pow2_adds(64 * (a1len - 1) as nat, 64 * (b1len - 1) as nat);
            lemma_pow2_adds(64 * (a1len + b1len - 2) as nat, 64 * len as nat);
            lemma_pow2_adds(64 * len as nat, 64 * len as nat);
            if 2 * len < a1len + b1len + len - 2 {
                lemma_pow2_strictly_increases(
                    64 * (2 * len) as nat,
                    64 * (a1len + b1len + len - 2) as nat,
                );
            }
            assert(a1v * b1v * x >= pow2(64 * (a1len - 1) as nat) * pow2(
                64 * (b1len - 1) as nat,
            ) * x) by (nonlinear_arith)
                requires
                    a1v >= pow2(64 * (a1len - 1) as nat),
                    b1v >= pow2(64 * (b1len - 1) as nat),
                    x > 0,
            ;
            assert(a0v * b0v < pow2(64 * len as nat) * pow2(64 * len as nat)) by (nonlinear_arith)
                requires
                    a0v < pow2(64 * len as nat),
                    b0v < pow2(64 * len as nat),
                    pow2(64 * len as nat) > 0,
            ;
        }
        assert(win(out@, off + len, hi as int) + p1 < pow2(64 * ((hi - off) - len) as nat)) by {
            lemma_p1_bound(a0v, a1v, b0v, b1v, x);
            lemma_win_split(out@, off as int, off + len, hi as int);
            let w2 = win(out@, off + len, hi as int);
            assert((w2 + p1) * x == w2 * x + p1 * x) by (nonlinear_arith);
            lemma_pow2_cancel(w2 + p1, 64 * len as nat, 64 * ((hi - off) - len) as nat);
        }
    }
    let ghost out_before = out@;
    // p1 = (a0 + a1) * (b0 + b1), accumulated at the split weight
    mul_at(&temp, i, as_end, &temp, 0, bs_end, out, off + len, hi);
    proof {
        assert(win(out@, off as int, hi as int) == win(o0, off as int, hi as int) + p1 * x) by {
            lemma_lift(out_before, out@, off as int, off + len, hi as int);
            let w = win(out_before, off + len, hi as int);
            assert((w + p1) * x == w * x + p1 * x) by (nonlinear_arith);
        }
    }
    // p2 = a1 * b1
    clear_win(&mut temp, 0, m);
    proof {
        lemma_val_bound(a@.subrange(alo + len, ahi as int));
        lemma_val_bound(b@.subrange(blo + len, bhi as int));
        lemma_mul_fits(a1v, b1v, a1len as nat, b1len as nat);
    }
    mul_at(a, alo + len, ahi, b, blo + len, bhi, &mut temp, 0, m);
    let ghost t2 = temp@;
    // p0 = a0 * b0
    clear_win(&mut temp, m, tlen);
    proof {
        lemma_val_bound(a@.subrange(alo as int, alo + len));
        lemma_val_bound(b@.subrange(blo as int, blo + len));
        lemma_mul_fits(a0v, b0v, len as nat, len as nat);
        assert(win(temp@, 0, m as int) == p2) by {
            assert(temp@.subrange(0, m as int) =~= t2.subrange(0, m as int));
        }
    }
    mul_at(a, alo, alo + len, b, blo, blo + len, &mut temp, m, tlen);
    proof {
        assert(win(temp@, 0, m as int) == p2) by {
            assert(temp@.subrange(0, m as int) =~= t2.subrange(0, m as int));
        }
        assert(win(temp@, m as int, tlen as int) == p0);
        assert(win(out@, off + len, hi as int) >= win(temp@, 0, m as int)) by {
            lemma_karatsuba_identity(a0v, a1v, b0v, b1v, x);
            lemma_win_split(out@, off as int, off + len, hi as int);
        }
    }
    let ghost out_p1 = out@;
    sub_at(out, off + len, hi, &temp, 0, m);
    proof {
        assert(win(out@, off as int, hi as int) + p2 * x == win(o0, off as int, hi as int) + p1
            * x) by {
            lemma_lift(out_p1, out@, off as int, off + len, hi as int);
            let w = win(out_p1, off + len, hi as int);
            assert((w - p2) * x == w * x - p2 * x) by (nonlinear_arith);
        }
        assert(win(out@, off + len, hi as int) >= win(temp@, m as int, tlen as int)) by {
            lemma_karatsuba_identity(a0v, a1v, b0v, b1v, x);
            lemma_win_split(out@, off as int, off + len, hi as int);
            lemma_win_split(out_p1, off as int, off + len, hi as int);
        }
    }
    let ghost out_p2 = out@;
    sub_at(out, off + len, hi, &temp, m, tlen);
    proof {
        assert(win(out@, off as int, hi as int) + p2 * x + p0 * x == win(
            o0,
            off as int,
            hi as int,
        ) + p1 * x) by {
            lemma_lift(out_p2, out@, off as int, off + len, hi as int);
            let wp = win(out_p2, off + len, hi as int);
            assert((wp - p0) * x == wp * x - p0 * x) by (nonlinear_arith);
        }
        // room for p2 at double weight
        assert(win(out@, off + (2 * len), hi as int) + win(temp@, 0, m as int) < pow2(
            64 * ((hi - off) - 2 * len) as nat,
        )) by {
            lemma_win_split(out@, off as int, off + (2 * len), hi as int);
            lemma_pow2_adds(64 * len as nat, 64 * len as nat);
            let w2 = win(out@, off + (2 * len), hi as int);
            let xx = pow2(64 * (2 * len) as nat);
            assert((w2 + p2) * xx == w2 * xx + p2 * xx) by (nonlinear_arith);
            assert(p1 * x == p0 * x + (a0v * b1v + a1v * b0v) * x + p2 * x) by (nonlinear_arith)
                requires
                    p1 == p0 + (a0v * b1v + a1v * b0v) + p2,
            ;
            assert(av * bv == p0 + (a0v * b1v + a1v * b0v) * x + p2 * (x * x));
            assert(p2 * xx == p2 * (x * x)) by (nonlinear_arith)
                requires
                    xx == x * x,
            ;
            assert(win(out@, off as int, hi as int) + p2 * xx <= win(o0, off as int, hi as int)
                + av * bv);
            lemma_pow2_cancel(w2 + p2, 64 * (2 * len) as nat, 64 * ((hi - off) - 2 * len) as nat);
        }
    }
    let ghost out_s2 = out@;
    add_at(out, off + 2 * len, hi, &temp, 0, m);
    proof {
        assert(win(out@, off as int, hi as int) + p2 * x + p0 * x == win(
            o0,
            off as int,
            hi as int,
        ) + p1 * x + p2 * (x * x)) by {
            lemma_lift(out_s2, out@, off as int, off + (2 * len), hi as int);
            let xx = pow2(64 * (2 * len) as nat);
            let ws = win(out_s2, off + (2 * len), hi as int);
            lemma_pow2_adds(64 * len as nat, 64 * len as nat);
            assert((ws + p2) * xx == ws * xx + p2 * xx) by (nonlinear_arith);
            assert(p2 * xx == p2 * (x * x)) by (nonlinear_arith)
                requires
                    xx == x * x,
            ;
        }
        // the last addition cannot overflow
        assert(win(out@, off as int, hi as int) + win(temp@, m as int, tlen as int) < pow2(
            64 * (hi - off) as nat,
        )) by {
            assert(p1 * x == p0 * x + (a0v * b1v + a1v * b0v) * x + p2 * x) by (nonlinear_arith)
                requires
                    p1 == p0 + (a0v * b1v + a1v * b0v) + p2,
            ;
            assert(av * bv == p0 + (a0v * b1v + a1v * b0v) * x + p2 * (x * x));
            assert(p0 <= p0 * x) by (nonlinear_arith)
                requires
                    x >= 1,
            ;
        }
    }
    add_at(out, off, hi, &temp, m, tlen);
    proof {
        assert(win(out@, off as int, hi as int) == win(o0, off as int, hi as int) + av * bv) by {
            assert(p1 * x == p0 * x + (a0v * b1v + a1v * b0v) * x + p2 * x) by (nonlinear_arith)
                requires
                    p1 == p0 + (a0v * b1v + a1v * b0v) + p2,
            ;
            assert(av * bv == p0 + (a0v * b1v + a1v * b0v) * x + p2 * (x * x));
        }
    }
}

/// Magnitude multiplication entry point: accumulates the product of the two
/// windows into `out` at `off`, dispatching to long multiplication for
/// short operands and to Karatsuba when the shorter operand reaches
/// sixteen limbs.
pub(crate) fn mul_at(
    a: &Vec<u64>,
    alo: usize,
    ahi: usize,
    b: &Vec<u64>,
    blo: usize,
    bhi: usize,
    out: &mut Vec<u64>,
    off: usize,
    hi: usize,
)
    requires
        alo <= ahi <= a.len(),
        blo <= bhi <= b.len(),
        off + (ahi - alo) + (bhi - blo) <= hi <= old(out).len(),
        win(old(out)@, off as int, hi as int) + win(a@, alo as int, ahi as int) * win(
            b@,
            blo as int,
            bhi as int,
        ) < pow2(64 * (hi - off) as nat),
    ensures
        final(out)@.len() == old(out)@.len(),
        forall|k: int|
            0 <= k < final(out)@.len() && !(off <= k < hi) ==> final(out)@[k] == old(out)@[k],
        win(final(out)@, off as int, hi as int) == win(old(out)@, off as int, hi as int) + win(
            a@,
            alo as int,
            ahi as int,
        ) * win(b@, blo as int, bhi as int),
    decreases bhi - blo, 1int,
{
    let at = trim_win(a, alo, ahi);
    let bt = trim_win(b, blo, bhi);
    proof {
        assert(win(a@, alo as int, at as int) == win(a@, alo as int, ahi as int));
        assert(win(b@, blo as int, bt as int) == win(b@, blo as int, bhi as int));
    }
    if at - alo >= bt - blo {
        if bt - blo < 16 {
            mul_long_at(a, alo, at, b, blo, bt, out, off, hi);
        } else {
            proof {
                assert(a@.subrange(alo as int, at as int).last() == a@[at - 1]);
                assert(b@.subrange(blo as int, bt as int).last() == b@[bt - 1]);
            }
            mul_karatsuba_at(a, alo, at, b, blo, bt, out, off, hi);
        }
    } else {
        proof {
            vstd::arithmetic::mul::lemma_mul_is_commutative(
                win(a@, alo as int, ahi as int) as int,
                win(b@, blo as int, bhi as int) as int,
            );
        }
        if at - alo < 16 {
            mul_long_at(b, blo, bt, a, alo, at, out, off, hi);
        } else {
            proof {
                assert(a@.subrange(alo as int, at as int).last() == a@[at - 1]);
                assert(b@.subrange(blo as int, bt as int).last() == b@[bt - 1]);
            }
            mul_karatsuba_at(b, blo, bt, a, alo, at, out, off, hi);
        }
    }
}

} // verus!
