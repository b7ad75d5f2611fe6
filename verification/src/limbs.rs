//! Limb kernels: primitive fixed-width operations on sequences of unsigned
//! 64-bit limbs, least-significant limb first. A sequence `s` stands for the
//! non-negative value `sum s[i] * 2^(64*i)`.

use vstd::prelude::*;
use vstd::arithmetic::power2::*;
use vstd::arithmetic::div_mod::*;
use core::cmp::Ordering;

verus! {

/// No trailing (most-significant) zero limb.
pub open spec fn trimmed(s: Seq<u64>) -> bool {
    s.len() == 0 || s.last() != 0
}

/// The value represented by a sequence of limbs, least-significant first.
pub open spec fn val(s: Seq<u64>) -> nat
    decreases s.len(),
{
    if s.len() == 0 {
        0
    } else {
        val(s.drop_last()) + s.last() as nat * pow2(64 * (s.len() - 1) as nat)
    }
}

/// Value of the window `v[lo..hi]`.
pub open spec fn win(v: Seq<u64>, lo: int, hi: int) -> nat {
    val(v.subrange(lo, hi))
}

pub proof fn lemma_val_take_succ(s: Seq<u64>, i: int)
    requires
        0 <= i < s.len(),
    ensures
        val(s.take(i + 1)) == val(s.take(i)) + s[i] * pow2(64 * i as nat),
{
    assert(s.take(i + 1).drop_last() =~= s.take(i));
    assert(s.take(i + 1).last() == s[i]);
}

pub proof fn lemma_val_bound(s: Seq<u64>)
    ensures
        val(s) < pow2(64 * s.len()),
    decreases s.len(),
{
    lemma_pow2_pos(64 * s.len());
    if s.len() == 0 {
    } else {
        let n = (s.len() - 1) as nat;
        let p = pow2(64 * n);
        lemma_val_bound(s.drop_last());
        lemma_pow2_adds(64 * n, 64);
        lemma2_to64();
        lemma_pow2_pos(64 * n);
        assert(s.last() as nat * p <= (0xffffffffffffffff as nat) * p) by (nonlinear_arith)
            requires
                s.last() <= 0xffffffffffffffff,
                p > 0,
        ;
        assert(p + (0xffffffffffffffff as nat) * p == p * 0x10000000000000000) by (nonlinear_arith);
        assert(pow2(64 * s.len()) == p * 0x10000000000000000);
    }
}

pub proof fn lemma_val_prefix(s: Seq<u64>, i: int)
    requires
        0 <= i <= s.len(),
        forall|k: int| i <= k < s.len() ==> s[k] == 0,
    ensures
        val(s) == val(s.take(i)),
    decreases s.len() - i,
{
    if i == s.len() {
        assert(s.take(i) =~= s);
    } else {
        lemma_val_take_succ(s, i);
        lemma_val_prefix(s, i + 1);
    }
}

/// A sequence of zero limbs has value zero.
pub proof fn lemma_val_zeros(s: Seq<u64>)
    requires
        forall|k: int| 0 <= k < s.len() ==> s[k] == 0,
    ensures
        val(s) == 0,
{
    lemma_val_prefix(s, 0);
    assert(s.take(0) =~= Seq::<u64>::empty());
}

/// Splitting a window: the value of `s` is the value of its low part plus
/// the value of its high part scaled by the weight of the split position.
#[verifier::rlimit(50)]
pub proof fn lemma_val_split(s: Seq<u64>, i: int)
    requires
        0 <= i <= s.len(),
    ensures
        val(s) == val(s.take(i)) + val(s.skip(i)) * pow2(64 * i as nat),
    decreases s.len(),
{
    if s.len() == 0 {
        assert(s.take(i) =~= s);
        assert(s.skip(i) =~= s);
        assert(val(s) == val(s.take(i)) + val(s.skip(i)) * pow2(64 * i as nat));
    } else if i == s.len() {
        assert(s.take(i) =~= s);
        assert(s.skip(i) =~= Seq::<u64>::empty());
        assert(val(s.skip(i)) == 0);
        assert(val(s) == val(s.take(i)) + val(s.skip(i)) * pow2(64 * i as nat));
    } else {
        lemma_val_split(s.drop_last(), i);
        assert(s.drop_last().take(i) =~= s.take(i));
        assert(s.drop_last().skip(i) =~= s.skip(i).drop_last());
        let hi = s.skip(i);
        let m = (hi.len() - 1) as nat;
        assert(hi.last() == s.last());
        lemma_pow2_adds(64 * m, 64 * i as nat);
        assert(64 * m + 64 * i as nat == 64 * (s.len() - 1) as nat);
        assert(val(hi) == val(hi.drop_last()) + s.last() as nat * pow2(64 * m));
        let a = val(hi.drop_last());
        let b = s.last() as nat;
        let p = pow2(64 * m);
        let q = pow2(64 * i as nat);
        assert(pow2(64 * (s.len() - 1) as nat) == p * q);
        assert(val(s) == val(s.drop_last()) + b * (p * q));
        assert(val(s.drop_last()) == val(s.take(i)) + a * q);
        assert((a + b * p) * q == a * q + b * (p * q)) by (nonlinear_arith);
        assert(val(s) == val(s.take(i)) + a * q + b * (p * q));
        assert(val(s) == val(s.take(i)) + (a + b * p) * q);
        assert(val(s) == val(s.take(i)) + val(s.skip(i)) * pow2(64 * i as nat));
    }
}

/// A nonzero trimmed sequence reaches at least the weight of its top limb.
pub proof fn lemma_val_lower(s: Seq<u64>)
    requires
        s.len() > 0,
        s.last() != 0,
    ensures
        val(s) >= pow2(64 * (s.len() - 1) as nat),
{
    let p = pow2(64 * (s.len() - 1) as nat);
    lemma_pow2_pos(64 * (s.len() - 1) as nat);
    assert(s.last() as nat * p >= 1 * p) by (nonlinear_arith)
        requires
            s.last() >= 1,
            p > 0,
    ;
}

/// Two equal-length limb sequences with the same value are identical.
pub proof fn lemma_val_eqlen_inj(s1: Seq<u64>, s2: Seq<u64>)
    requires
        s1.len() == s2.len(),
        val(s1) == val(s2),
    ensures
        s1 == s2,
    decreases s1.len(),
{
    if s1.len() == 0 {
        assert(s1 =~= s2);
    } else {
        let w = pow2(64 * (s1.len() - 1) as nat);
        lemma_pow2_pos(64 * (s1.len() - 1) as nat);
        lemma_val_bound(s1.drop_last());
        lemma_val_bound(s2.drop_last());
        let l1 = s1.last() as nat;
        let l2 = s2.last() as nat;
        assert(l1 == l2) by {
            if l1 < l2 {
                assert(val(s1.drop_last()) + l1 * w < (l1 + 1) * w && (l1 + 1) * w <= l2 * w)
                    by (nonlinear_arith)
                    requires
                        val(s1.drop_last()) < w,
                        l1 < l2,
                        w > 0,
                ;
            }
            if l2 < l1 {
                assert(val(s2.drop_last()) + l2 * w < (l2 + 1) * w && (l2 + 1) * w <= l1 * w)
                    by (nonlinear_arith)
                    requires
                        val(s2.drop_last()) < w,
                        l2 < l1,
                        w > 0,
                ;
            }
        }
        lemma_val_eqlen_inj(s1.drop_last(), s2.drop_last());
        assert(s1 =~= s2) by {
            assert(forall|i: int|
                0 <= i < s1.len() - 1 ==> s1[i] == s1.drop_last()[i] && s2[i] == s2.drop_last()[i]);
        }
    }
}

/// Two trimmed limb sequences with the same value are identical: the
/// canonical representation is unique.
pub proof fn lemma_trimmed_unique(s1: Seq<u64>, s2: Seq<u64>)
    requires
        trimmed(s1),
        trimmed(s2),
        val(s1) == val(s2),
    ensures
        s1 == s2,
{
    if s1.len() < s2.len() {
        lemma_val_bound(s1);
        lemma_val_lower(s2);
        lemma_pow2_adds(64 * s1.len(), 64 * (s2.len() - 1 - s1.len()) as nat);
        lemma_pow2_pos(64 * (s2.len() - 1 - s1.len()) as nat);
        assert(pow2(64 * s1.len()) <= pow2(64 * s1.len()) * pow2(
            64 * (s2.len() - 1 - s1.len()) as nat,
        )) by (nonlinear_arith)
            requires
                pow2(64 * s1.len()) > 0,
                pow2(64 * (s2.len() - 1 - s1.len()) as nat) >= 1,
        ;
        assert(false);
    } else if s2.len() < s1.len() {
        lemma_val_bound(s2);
        lemma_val_lower(s1);
        lemma_pow2_adds(64 * s2.len(), 64 * (s1.len() - 1 - s2.len()) as nat);
        lemma_pow2_pos(64 * (s1.len() - 1 - s2.len()) as nat);
        assert(pow2(64 * s2.len()) <= pow2(64 * s2.len()) * pow2(
            64 * (s1.len() - 1 - s2.len()) as nat,
        )) by (nonlinear_arith)
            requires
                pow2(64 * s2.len()) > 0,
                pow2(64 * (s1.len() - 1 - s2.len()) as nat) >= 1,
        ;
        assert(false);
    } else {
        lemma_val_eqlen_inj(s1, s2);
    }
}

/// If two equal-length windows agree strictly above position `k` and differ
/// at `k`, the one with the smaller limb at `k` has the smaller value.
pub proof fn lemma_cmp_at(s1: Seq<u64>, s2: Seq<u64>, k: int)
    requires
        s1.len() == s2.len(),
        0 <= k < s1.len(),
        forall|j: int| k < j < s1.len() ==> s1[j] == s2[j],
        s1[k] < s2[k],
    ensures
        val(s1) < val(s2),
{
    lemma_val_split(s1, k + 1);
    lemma_val_split(s2, k + 1);
    assert(s1.skip(k + 1) =~= s2.skip(k + 1));
    lemma_val_take_succ(s1, k);
    lemma_val_take_succ(s2, k);
    lemma_val_bound(s1.take(k));
    let w = pow2(64 * k as nat);
    lemma_pow2_pos(64 * k as nat);
    assert(val(s1.take(k)) + s1[k] as nat * w < (s1[k] as nat + 1) * w && (s1[k] as nat + 1) * w
        <= s2[k] as nat * w) by (nonlinear_arith)
        requires
            val(s1.take(k)) < w,
            s1[k] < s2[k],
            w > 0,
    ;
    assert(val(s2.take(k + 1)) >= s2[k] as nat * w);
}

/// Three-way split of a sequence value at positions `lo <= hi`.
pub proof fn lemma_val_three(s: Seq<u64>, lo: int, hi: int)
    requires
        0 <= lo <= hi <= s.len(),
    ensures
        val(s) == val(s.subrange(0, lo)) + win(s, lo, hi) * pow2(64 * lo as nat) + val(
            s.skip(hi),
        ) * pow2(64 * hi as nat),
{
    lemma_val_split(s, lo);
    assert(s.take(lo) =~= s.subrange(0, lo));
    lemma_val_split(s.skip(lo), hi - lo);
    assert(s.skip(lo).take(hi - lo) =~= s.subrange(lo, hi));
    assert(s.skip(lo).skip(hi - lo) =~= s.skip(hi));
    let x = win(s, lo, hi);
    let y = val(s.skip(hi));
    let p = pow2(64 * (hi - lo) as nat);
    let q = pow2(64 * lo as nat);
    lemma_pow2_adds(64 * (hi - lo) as nat, 64 * lo as nat);
    assert(val(s.skip(lo)) == x + y * p);
    assert((x + y * p) * q == x * q + y * (p * q)) by (nonlinear_arith);
    assert(pow2(64 * hi as nat) == p * q);
}

/// Rewriting the value of a vector when only the window `[lo, hi)` changed.
pub proof fn lemma_win_update(v1: Seq<u64>, v2: Seq<u64>, lo: int, hi: int)
    requires
        v1.len() == v2.len(),
        0 <= lo <= hi <= v1.len(),
        forall|k: int| 0 <= k < lo ==> v1[k] == v2[k],
        forall|k: int| hi <= k < v1.len() ==> v1[k] == v2[k],
    ensures
        val(v2) + win(v1, lo, hi) * pow2(64 * lo as nat) == val(v1) + win(v2, lo, hi) * pow2(
            64 * lo as nat,
        ),
{
    lemma_val_three(v1, lo, hi);
    lemma_val_three(v2, lo, hi);
    assert(v1.subrange(0, lo) =~= v2.subrange(0, lo));
    assert(v1.skip(hi) =~= v2.skip(hi));
}

/// Prepending one limb: the window `[lo-1, hi)` is the limb at `lo-1` plus
/// the window `[lo, hi)` scaled by one limb weight.
pub proof fn lemma_win_lo(v: Seq<u64>, lo: int, hi: int)
    requires
        0 < lo <= hi <= v.len(),
    ensures
        win(v, lo - 1, hi) == v[lo - 1] + win(v, lo, hi) * 0x10000000000000000,
{
    if lo == hi {
        lemma_win_single(v, lo - 1);
        lemma_win_empty(v, lo);
        return;
    }
    let s = v.subrange(lo - 1, hi);
    lemma_val_split(s, 1);
    assert(s.take(1) =~= seq![v[lo - 1]]);
    assert(s.skip(1) =~= v.subrange(lo, hi));
    lemma2_to64();
    let single = s.take(1);
    assert(single.drop_last() =~= Seq::<u64>::empty());
    assert(val(single) == val(single.drop_last()) + single.last() as nat * pow2(
        64 * (single.len() - 1) as nat,
    ));
    assert(64 * (single.len() - 1) as nat == 0);
    assert(pow2(0) == 1);
    assert(val(Seq::<u64>::empty()) == 0);
    assert(single.last() == v[lo - 1]);
    assert(single.last() as nat * pow2(64 * (single.len() - 1) as nat) == v[lo - 1])
        by (nonlinear_arith)
        requires
            pow2(64 * (single.len() - 1) as nat) == 1,
            single.last() == v[lo - 1],
    ;
    assert(val(single) == v[lo - 1]);
}

/// Extending a window upward by one limb.
pub proof fn lemma_win_hi(v: Seq<u64>, lo: int, hi: int)
    requires
        0 <= lo <= hi < v.len(),
    ensures
        win(v, lo, hi + 1) == win(v, lo, hi) + v[hi] * pow2(64 * (hi - lo) as nat),
{
    assert(v.subrange(lo, hi + 1).drop_last() =~= v.subrange(lo, hi));
    assert(v.subrange(lo, hi + 1).last() == v[hi]);
}

/// Add two limbs into a running 128-bit accumulator: emit the low 64 bits,
/// carry the high bits forward.
pub(crate) fn add_kernel(a: u64, b: u64, carry: &mut u128) -> (out: u64)
    requires
        *old(carry) <= 0xffffffffffffffff,
    ensures
        a + b + *old(carry) == out + *final(carry) * 0x10000000000000000,
        *final(carry) <= 0xffffffffffffffff,
{
    let total: u128 = *carry + a as u128 + b as u128;
    let out = (total % 0x10000000000000000) as u64;
    *carry = total / 0x10000000000000000;
    proof {
        lemma_fundamental_div_mod(total as int, 0x10000000000000000);
    }
    out
}

/// Subtract with borrow through a signed 128-bit accumulator; the borrow is
/// 0 or -1.
pub(crate) fn sub_kernel(a: u64, b: u64, borrow: &mut i128) -> (out: u64)
    requires
        -1 <= *old(borrow) <= 0,
    ensures
        a + *old(borrow) - b == *final(borrow) * 0x10000000000000000 + out,
        -1 <= *final(borrow) <= 0,
{
    let t: i128 = *borrow + a as i128 - b as i128;
    if t >= 0 {
        *borrow = 0;
        t as u64
    } else {
        *borrow = -1;
        (t + 0x10000000000000000) as u64
    }
}

/// The fused multiply-accumulate primitive: `acc + a*b + carry`, low limb
/// out, high bits carried.
pub(crate) fn mul_kernel(acc: u64, a: u64, b: u64, carry: &mut u128) -> (out: u64)
    requires
        *old(carry) <= 0xffffffffffffffff,
    ensures
        acc + a * b + *old(carry) == out + *final(carry) * 0x10000000000000000,
        *final(carry) <= 0xffffffffffffffff,
{
    proof {
        assert((a as u128) * (b as u128) <= 0xffffffffffffffff * 0xffffffffffffffff)
            by (nonlinear_arith)
            requires
                a <= 0xffffffffffffffff,
                b <= 0xffffffffffffffff,
        ;
    }
    let total: u128 = *carry + acc as u128 + (a as u128) * (b as u128);
    let out = (total % 0x10000000000000000) as u64;
    *carry = total / 0x10000000000000000;
    proof {
        lemma_fundamental_div_mod(total as int, 0x10000000000000000);
    }
    out
}

/// Divide the 128-bit value `(hi, lo)` by a single limb; the caller
/// guarantees `hi < divisor`, so the quotient fits in one limb.
pub(crate) fn div_rem_kernel(hi: u64, lo: u64, divisor: u64) -> (r: (u64, u64))
    requires
        divisor > 0,
        hi < divisor,
    ensures
        r.0 * divisor + r.1 == hi * 0x10000000000000000 + lo,
        r.1 < divisor,
{
    let a: u128 = (hi as u128) * 0x10000000000000000 + lo as u128;
    let b: u128 = divisor as u128;
    proof {
        assert(a < b * 0x10000000000000000) by (nonlinear_arith)
            requires
                hi < divisor,
                a == (hi as u128) * 0x10000000000000000 + lo as u128,
                b == divisor as u128,
                lo <= 0xffffffffffffffff,
        ;
        lemma_fundamental_div_mod(a as int, b as int);
        lemma_mod_division_less_than_divisor(a as int, b as int);
        lemma_multiply_divide_lt(a as int, b as int, 0x10000000000000000);
        vstd::arithmetic::mul::lemma_mul_is_commutative(b as int, a as int / b as int);
    }
    ((a / b) as u64, (a % b) as u64)
}

/// Copy `n` limbs from `src[slo..]` into `dst[dlo..]`.
pub(crate) fn copy_win(dst: &mut Vec<u64>, dlo: usize, src: &Vec<u64>, slo: usize, n: usize)
    requires
        dlo + n <= old(dst).len(),
        slo + n <= src.len(),
    ensures
        final(dst)@.len() == old(dst)@.len(),
        forall|k: int|
            0 <= k < final(dst)@.len() && !(dlo <= k < dlo + n) ==> final(dst)@[k] == old(
                dst,
            )@[k],
        final(dst)@.subrange(dlo as int, dlo + n) == src@.subrange(slo as int, slo + n),
{
    let ghost d0 = dst@;
    let mut i: usize = 0;
    while i < n
        invariant
            i <= n,
            dlo + n <= dst.len(),
            dst@.len() == d0.len(),
            slo + n <= src.len(),
            forall|k: int| 0 <= k < dst@.len() && !(dlo <= k < dlo + i) ==> dst@[k] == d0[k],
            forall|k: int| 0 <= k < i ==> #[trigger] dst@[dlo + k] == src@[slo + k],
        decreases n - i,
    {
        let x = src[slo + i];
        dst[dlo + i] = x;
        i = i + 1;
    }
    proof {
        let d = dst@.subrange(dlo as int, dlo + n);
        let sw = src@.subrange(slo as int, slo + n);
        assert forall|j: int| 0 <= j < n implies d[j] == sw[j] by {
            assert(dst@[dlo + j] == src@[slo + j]);
        }
        assert(d =~= sw);
    }
}

/// Zero the window `v[lo..hi]`.
pub(crate) fn clear_win(v: &mut Vec<u64>, lo: usize, hi: usize)
    requires
        lo <= hi <= old(v).len(),
    ensures
        final(v)@.len() == old(v)@.len(),
        forall|k: int|
            0 <= k < final(v)@.len() && !(lo <= k < hi) ==> final(v)@[k] == old(v)@[k],
        forall|k: int| lo <= k < hi ==> final(v)@[k] == 0,
        win(final(v)@, lo as int, hi as int) == 0,
{
    let ghost v0 = v@;
    let mut i: usize = lo;
    while i < hi
        invariant
            lo <= i <= hi <= v.len(),
            v@.len() == v0.len(),
            forall|k: int| 0 <= k < v@.len() && !(lo <= k < i) ==> v@[k] == v0[k],
            forall|k: int| lo <= k < i ==> v@[k] == 0,
        decreases hi - i,
    {
        v[i] = 0;
        i = i + 1;
    }
    proof {
        lemma_val_zeros(v@.subrange(lo as int, hi as int));
    }
}

/// Write the sum of two windows (`a` at least as long as `b`) into the
/// window of `out` at `off`, whose top slot takes the final carry.
pub(crate) fn add_to(
    out: &mut Vec<u64>,
    off: usize,
    a: &Vec<u64>,
    alo: usize,
    ahi: usize,
    b: &Vec<u64>,
    blo: usize,
    bhi: usize,
)
    requires
        alo <= ahi <= a.len(),
        blo <= bhi <= b.len(),
        ahi - alo >= bhi - blo,
        off + (ahi - alo) + 1 <= old(out).len(),
        old(out)@[off + (ahi - alo)] == 0,
    ensures
        final(out)@.len() == old(out)@.len(),
        forall|k: int|
            0 <= k < final(out)@.len() && !(off <= k < off + (ahi - alo) + 1) ==> final(out)@[k]
                == old(out)@[k],
        win(final(out)@, off as int, off + (ahi - alo) + 1) == win(a@, alo as int, ahi as int)
            + win(
            b@,
            blo as int,
            bhi as int,
        ),
{
    let ghost o0 = out@;
    let alen = ahi - alo;
    let blen = bhi - blo;
    proof {
        lemma_win_empty(out@, off as int);
        lemma_win_empty(a@, alo as int);
        lemma_win_empty(b@, blo as int);
    }
    let mut carry: u128 = 0;
    let mut i: usize = 0;
    while i < blen
        invariant
            i <= blen <= alen,
            alo + alen <= a.len(),
            blo + blen <= b.len(),
            off + alen + 1 <= out.len(),
            out@.len() == o0.len(),
            carry <= 1,
            forall|k: int| 0 <= k < out@.len() && !(off <= k < off + i) ==> out@[k] == o0[k],
            win(out@, off as int, off + i) + carry * pow2(64 * i as nat) == win(
                a@,
                alo as int,
                alo + i,
            ) + win(b@, blo as int, blo + i),
        decreases blen - i,
    {
        let ghost prev = out@;
        let ghost c0 = carry;
        let x = add_kernel(a[alo + i], b[blo + i], &mut carry);
        out[off + i] = x;
        i = i + 1;
        proof {
            lemma_step_add(
                prev,
                out@,
                o0,
                a@,
                b@,
                off as int,
                alo as int,
                blo as int,
                i - 1,
                x,
                c0 as nat,
                carry as nat,
                a@[alo + i - 1] as nat + b@[blo + i - 1] as nat,
            );
            lemma_win_hi(a@, alo as int, alo + i - 1);
            lemma_win_hi(b@, blo as int, blo + i - 1);
            lemma_mul_distribute(
                a@[alo + i - 1] as nat,
                b@[blo + i - 1] as nat,
                pow2(64 * (i - 1) as nat),
            );
        }
    }
    while i < alen
        invariant
            blen <= i <= alen,
            alo + alen <= a.len(),
            blo + blen <= b.len(),
            off + alen + 1 <= out.len(),
            out@.len() == o0.len(),
            carry <= 1,
            forall|k: int| 0 <= k < out@.len() && !(off <= k < off + i) ==> out@[k] == o0[k],
            win(out@, off as int, off + i) + carry * pow2(64 * i as nat) == win(
                a@,
                alo as int,
                alo + i,
            ) + win(b@, blo as int, bhi as int),
        decreases alen - i,
    {
        let ghost prev = out@;
        let ghost c0 = carry;
        let x = add_kernel(a[alo + i], 0, &mut carry);
        out[off + i] = x;
        i = i + 1;
        proof {
            lemma_step_add(
                prev,
                out@,
                o0,
                a@,
                b@,
                off as int,
                alo as int,
                blo as int,
                i - 1,
                x,
                c0 as nat,
                carry as nat,
                a@[alo + i - 1] as nat,
            );
            lemma_win_hi(a@, alo as int, alo + i - 1);
        }
    }
    proof {
        lemma_win_hi(out@, off as int, off + alen);
        assert(out@[off + alen] == 0);
    }
    if carry != 0 {
        let ghost prev = out@;
        out[off + alen] = 1;
        proof {
            assert(out@.subrange(off as int, off + alen) =~= prev.subrange(
                off as int,
                off + alen,
            ));
            lemma_win_hi(out@, off as int, off + alen);
        }
    }
}

/// An empty window has value zero.
pub proof fn lemma_win_empty(v: Seq<u64>, l: int)
    requires
        0 <= l <= v.len(),
    ensures
        win(v, l, l) == 0,
{
    assert(v.subrange(l, l) =~= Seq::<u64>::empty());
}

pub proof fn lemma_mul_distribute(x: nat, y: nat, p: nat)
    ensures
        (x + y) * p == x * p + y * p,
{
    assert((x + y) * p == x * p + y * p) by (nonlinear_arith);
}

/// One ripple step: after writing limb `x` at `off + i`, the accumulated
/// window value plus the outgoing carry weight equals the sums so far.
proof fn lemma_step_add(
    prev: Seq<u64>,
    cur: Seq<u64>,
    o0: Seq<u64>,
    a: Seq<u64>,
    b: Seq<u64>,
    off: int,
    alo: int,
    blo: int,
    i: int,
    x: u64,
    c0: nat,
    c1: nat,
    addend: nat,
)
    requires
        0 <= i,
        0 <= off,
        prev.len() == cur.len(),
        off + i < cur.len(),
        cur == prev.update(off + i, x),
        addend + c0 == x + c1 * 0x10000000000000000,
    ensures
        win(cur, off, off + i + 1) + c1 * pow2(64 * (i + 1) as nat) == win(prev, off, off + i)
            + c0 * pow2(64 * i as nat) + addend * pow2(64 * i as nat),
        forall|k: int| 0 <= k < cur.len() && k != off + i ==> cur[k] == prev[k],
{
    assert(cur.subrange(off, off + i) =~= prev.subrange(off, off + i));
    lemma_win_hi(cur, off, off + i);
    assert(cur[off + i] == x);
    let p = pow2(64 * i as nat);
    lemma_pow2_adds(64 * i as nat, 64);
    lemma2_to64();
    assert(pow2(64 * (i + 1) as nat) == p * 0x10000000000000000);
    assert(x as nat * p + c1 * (p * 0x10000000000000000) == (x as nat + c1 * 0x10000000000000000)
        * p) by (nonlinear_arith);
    assert((x as nat + c1 * 0x10000000000000000) * p == (addend + c0) * p);
    assert((addend + c0) * p == addend * p + c0 * p) by (nonlinear_arith);
}

/// A one-limb window is that limb.
pub proof fn lemma_win_single(v: Seq<u64>, k: int)
    requires
        0 <= k < v.len(),
    ensures
        win(v, k, k + 1) == v[k],
{
    lemma_win_empty(v, k);
    lemma_win_hi(v, k, k);
    lemma2_to64();
    assert(v[k] as nat * pow2(0) == v[k]) by (nonlinear_arith)
        requires
            pow2(0) == 1,
    ;
}

/// One borrow-ripple step for in-place subtraction windows.
proof fn lemma_step_sub(
    prev: Seq<u64>,
    cur: Seq<u64>,
    off: int,
    i: int,
    x: u64,
    bor0: int,
    bor1: int,
    adelta: int,
)
    requires
        0 <= i,
        0 <= off,
        prev.len() == cur.len(),
        off + i < cur.len(),
        cur == prev.update(off + i, x),
        x == adelta + bor0 - bor1 * 0x10000000000000000,
        -1 <= bor0 <= 0,
        -1 <= bor1 <= 0,
    ensures
        win(cur, off, off + i + 1) + bor1 * pow2(64 * (i + 1) as nat) == win(prev, off, off + i)
            + bor0 * pow2(64 * i as nat) + adelta * pow2(64 * i as nat),
        forall|k: int| 0 <= k < cur.len() && k != off + i ==> cur[k] == prev[k],
{
    assert(cur.subrange(off, off + i) =~= prev.subrange(off, off + i));
    lemma_win_hi(cur, off, off + i);
    let p = pow2(64 * i as nat);
    lemma_pow2_adds(64 * i as nat, 64);
    lemma2_to64();
    assert(pow2(64 * (i + 1) as nat) == p * 0x10000000000000000);
    assert(x as int * p + bor1 * (p * 0x10000000000000000) == (x as int + bor1
        * 0x10000000000000000) * p) by (nonlinear_arith);
    assert((x as int + bor1 * 0x10000000000000000) * p == (adelta + bor0) * p);
    assert((adelta + bor0) * p == adelta * p + bor0 * p) by (nonlinear_arith);
}

/// Write the difference of two windows (`a` at least as long as `b`, and at
/// least as large) into the window of `out` at `off`.
pub(crate) fn sub_to(
    out: &mut Vec<u64>,
    off: usize,
    a: &Vec<u64>,
    alo: usize,
    ahi: usize,
    b: &Vec<u64>,
    blo: usize,
    bhi: usize,
)
    requires
        alo <= ahi <= a.len(),
        blo <= bhi <= b.len(),
        ahi - alo >= bhi - blo,
        off + (ahi - alo) <= old(out).len(),
        win(a@, alo as int, ahi as int) >= win(b@, blo as int, bhi as int),
    ensures
        final(out)@.len() == old(out)@.len(),
        forall|k: int|
            0 <= k < final(out)@.len() && !(off <= k < off + (ahi - alo)) ==> final(out)@[k]
                == old(out)@[k],
        win(final(out)@, off as int, off + (ahi - alo)) == win(a@, alo as int, ahi as int) - win(
            b@,
            blo as int,
            bhi as int,
        ),
{
    let ghost o0 = out@;
    let alen = ahi - alo;
    let blen = bhi - blo;
    proof {
        lemma_win_empty(out@, off as int);
        lemma_win_empty(a@, alo as int);
        lemma_win_empty(b@, blo as int);
    }
    let mut borrow: i128 = 0;
    let mut i: usize = 0;
    while i < blen
        invariant
            i <= blen <= alen,
            alo + alen <= a.len(),
            blo + blen <= b.len(),
            off + alen <= out.len(),
            out@.len() == o0.len(),
            -1 <= borrow <= 0,
            forall|k: int| 0 <= k < out@.len() && !(off <= k < off + i) ==> out@[k] == o0[k],
            win(out@, off as int, off + i) + borrow * pow2(64 * i as nat) == win(
                a@,
                alo as int,
                alo + i,
            ) - win(b@, blo as int, blo + i),
        decreases blen - i,
    {
        let ghost prev = out@;
        let ghost b0 = borrow as int;
        let x = sub_kernel(a[alo + i], b[blo + i], &mut borrow);
        out[off + i] = x;
        i = i + 1;
        proof {
            lemma_step_sub(
                prev,
                out@,
                off as int,
                i - 1,
                x,
                b0,
                borrow as int,
                a@[alo + i - 1] - b@[blo + i - 1],
            );
            lemma_win_hi(a@, alo as int, alo + i - 1);
            lemma_win_hi(b@, blo as int, blo + i - 1);
            assert((a@[alo + i - 1] - b@[blo + i - 1]) * pow2(64 * (i - 1) as nat) == a@[alo + i
                - 1] * pow2(64 * (i - 1) as nat) - b@[blo + i - 1] * pow2(64 * (i - 1) as nat))
                by (nonlinear_arith);
        }
    }
    while i < alen
        invariant
            blen <= i <= alen,
            alo + alen <= a.len(),
            blo + blen <= b.len(),
            off + alen <= out.len(),
            out@.len() == o0.len(),
            -1 <= borrow <= 0,
            forall|k: int| 0 <= k < out@.len() && !(off <= k < off + i) ==> out@[k] == o0[k],
            win(out@, off as int, off + i) + borrow * pow2(64 * i as nat) == win(
                a@,
                alo as int,
                alo + i,
            ) - win(b@, blo as int, bhi as int),
        decreases alen - i,
    {
        let ghost prev = out@;
        let ghost b0 = borrow as int;
        let x = sub_kernel(a[alo + i], 0, &mut borrow);
        out[off + i] = x;
        i = i + 1;
        proof {
            lemma_step_sub(
                prev,
                out@,
                off as int,
                i - 1,
                x,
                b0,
                borrow as int,
                a@[alo + i - 1] as int,
            );
            lemma_win_hi(a@, alo as int, alo + i - 1);
        }
    }
    proof {
        lemma_val_bound(out@.subrange(off as int, off + alen));
        if borrow != 0 {
            lemma_pow2_pos(64 * alen as nat);
            assert(false);
        }
    }
}

/// Add the window of `b` into `out[off..]`, rippling the carry to the end
/// of `out`; the caller guarantees the window does not overflow.
pub(crate) fn add_at(out: &mut Vec<u64>, off: usize, hi: usize, b: &Vec<u64>, blo: usize, bhi: usize)
    requires
        blo <= bhi <= b.len(),
        off + (bhi - blo) <= hi <= old(out).len(),
        win(old(out)@, off as int, hi as int) + win(b@, blo as int, bhi as int) < pow2(
            64 * (hi - off) as nat,
        ),
    ensures
        final(out)@.len() == old(out)@.len(),
        forall|k: int|
            0 <= k < final(out)@.len() && !(off <= k < hi) ==> final(out)@[k] == old(out)@[k],
        win(final(out)@, off as int, hi as int) == win(old(out)@, off as int, hi as int) + win(
            b@,
            blo as int,
            bhi as int,
        ),
{
    let ghost o0 = out@;
    let blen = bhi - blo;
    let len = hi;
    proof {
        lemma_win_empty(out@, off as int);
        lemma_win_empty(b@, blo as int);
    }
    let mut carry: u128 = 0;
    let mut i: usize = 0;
    while i < blen
        invariant
            i <= blen,
            blo + blen <= b.len(),
            off + blen <= len <= out.len(),
            out@.len() == o0.len(),
            carry <= 1,
            forall|k: int| 0 <= k < out@.len() && !(off <= k < off + i) ==> out@[k] == o0[k],
            win(out@, off as int, off + i) + carry * pow2(64 * i as nat) == win(
                o0,
                off as int,
                off + i,
            ) + win(b@, blo as int, blo + i),
        decreases blen - i,
    {
        let ghost prev = out@;
        let ghost c0 = carry;
        let acc = out[off + i];
        let x = add_kernel(acc, b[blo + i], &mut carry);
        out[off + i] = x;
        i = i + 1;
        proof {
            lemma_step_add(
                prev,
                out@,
                o0,
                prev,
                b@,
                off as int,
                off as int,
                blo as int,
                i - 1,
                x,
                c0 as nat,
                carry as nat,
                acc as nat + b@[blo + i - 1] as nat,
            );
            lemma_win_hi(o0, off as int, off + i - 1);
            lemma_win_hi(b@, blo as int, blo + i - 1);
            lemma_mul_distribute(acc as nat, b@[blo + i - 1] as nat, pow2(64 * (i - 1) as nat));
            assert(o0[off + i - 1] == acc);
        }
    }
    let mut k: usize = off + blen;
    while carry != 0 && k < len
        invariant
            off + blen <= k <= len <= out.len(),
            out@.len() == o0.len(),
            carry <= 1,
            forall|j: int| 0 <= j < out@.len() && !(off <= j < k) ==> out@[j] == o0[j],
            win(out@, off as int, k as int) + carry * pow2(64 * (k - off) as nat) == win(
                o0,
                off as int,
                k as int,
            ) + win(b@, blo as int, bhi as int),
        decreases len - k,
    {
        let ghost prev = out@;
        let ghost c0 = carry;
        let acc = out[k];
        let x = add_kernel(acc, 0, &mut carry);
        out[k] = x;
        k = k + 1;
        proof {
            lemma_step_add(
                prev,
                out@,
                o0,
                prev,
                b@,
                off as int,
                off as int,
                blo as int,
                k - 1 - off,
                x,
                c0 as nat,
                carry as nat,
                acc as nat,
            );
            lemma_win_hi(o0, off as int, k - 1);
            assert(o0[k - 1] == acc);
        }
    }
    proof {
        lemma_finish_ripple(
            out@,
            o0,
            b@,
            off as int,
            hi as int,
            k as int,
            blo as int,
            bhi as int,
            carry as nat,
        );
    }
}

/// After the ripple loop stops (carry clear, or the window exhausted), the
/// whole window has absorbed the addend.
proof fn lemma_finish_ripple(
    cur: Seq<u64>,
    o0: Seq<u64>,
    b: Seq<u64>,
    off: int,
    hi: int,
    k: int,
    blo: int,
    bhi: int,
    carry: nat,
)
    requires
        cur.len() == o0.len(),
        0 <= off <= k <= hi <= cur.len(),
        0 <= blo <= bhi <= b.len(),
        carry == 0 || k == hi,
        forall|j: int| 0 <= j < cur.len() && !(off <= j < k) ==> cur[j] == o0[j],
        win(cur, off, k) + carry * pow2(64 * (k - off) as nat) == win(o0, off, k) + win(
            b,
            blo,
            bhi,
        ),
        win(o0, off, hi) + win(b, blo, bhi) < pow2(64 * (hi - off) as nat),
    ensures
        win(cur, off, hi) == win(o0, off, hi) + win(b, blo, bhi),
{
    let n = hi;
    lemma_val_three(cur.subrange(off, n), 0, k - off);
    lemma_val_three(o0.subrange(off, n), 0, k - off);
    assert(cur.subrange(off, n).subrange(0, 0) =~= Seq::<u64>::empty());
    assert(o0.subrange(off, n).subrange(0, 0) =~= Seq::<u64>::empty());
    assert(cur.subrange(off, n).subrange(0, k - off) =~= cur.subrange(off, k));
    assert(o0.subrange(off, n).subrange(0, k - off) =~= o0.subrange(off, k));
    assert(cur.subrange(off, n).skip(k - off) =~= cur.subrange(k, n));
    assert(o0.subrange(off, n).skip(k - off) =~= o0.subrange(k, n));
    assert(cur.subrange(k, n) =~= o0.subrange(k, n));
    lemma2_to64();
    assert(pow2(0) == 1);
    let p = pow2(64 * (k - off) as nat);
    let tail = val(o0.subrange(k, n));
    assert(win(cur, off, n) * 1 == win(cur, off, k) * 1 + tail * p) by (nonlinear_arith)
        requires
            win(cur, off, n) == 0 + win(cur, off, k) * 1 + tail * p,
    ;
    assert(win(o0, off, n) * 1 == win(o0, off, k) * 1 + tail * p) by (nonlinear_arith)
        requires
            win(o0, off, n) == 0 + win(o0, off, k) * 1 + tail * p,
    ;
    if carry != 0 {
        assert(k == n);
        assert(cur.subrange(off, k) =~= cur.subrange(off, n));
        assert(o0.subrange(off, k) =~= o0.subrange(off, n));
        lemma_pow2_pos(64 * (n - off) as nat);
        assert(carry * pow2(64 * (n - off) as nat) >= pow2(64 * (n - off) as nat))
            by (nonlinear_arith)
            requires
                carry >= 1,
                pow2(64 * (n - off) as nat) > 0,
        ;
        assert(false);
    }
}

/// Absolute end of the window `v[lo..hi]` once trailing zero limbs are
/// dropped: the position after the last nonzero limb, or `lo`.
pub(crate) fn trim_win(v: &Vec<u64>, lo: usize, hi: usize) -> (r: usize)
    requires
        lo <= hi <= v.len(),
    ensures
        lo <= r <= hi,
        trimmed(v@.subrange(lo as int, r as int)),
        forall|k: int| r <= k < hi ==> v@[k] == 0,
        win(v@, lo as int, r as int) == win(v@, lo as int, hi as int),
{
    let mut i = hi;
    while i > lo && v[i - 1] == 0
        invariant
            lo <= i <= hi <= v.len(),
            forall|k: int| i <= k < hi ==> v@[k] == 0,
        decreases i,
    {
        i = i - 1;
    }
    proof {
        lemma_val_prefix(v@.subrange(lo as int, hi as int), i - lo);
        assert(v@.subrange(lo as int, hi as int).take(i - lo) =~= v@.subrange(lo as int, i as int));
        if i > lo {
            assert(v@.subrange(lo as int, i as int).last() == v@[i - 1]);
        }
    }
    i
}

/// Magnitude comparison of two limb windows: by length first (meaningful on
/// trimmed windows), then from the most-significant limb down.
pub(crate) fn cmp_win(a: &Vec<u64>, alo: usize, ahi: usize, b: &Vec<u64>, blo: usize, bhi: usize) -> (r:
    Ordering)
    requires
        alo <= ahi <= a@.len(),
        blo <= bhi <= b@.len(),
    ensures
        ahi - alo > bhi - blo ==> r == Ordering::Greater,
        ahi - alo < bhi - blo ==> r == Ordering::Less,
        ahi - alo == bhi - blo ==> {
            &&& (r == Ordering::Equal <==> win(a@, alo as int, ahi as int) == win(
                b@,
                blo as int,
                bhi as int,
            ))
            &&& (r == Ordering::Less <==> win(a@, alo as int, ahi as int) < win(
                b@,
                blo as int,
                bhi as int,
            ))
            &&& (r == Ordering::Greater <==> win(a@, alo as int, ahi as int) > win(
                b@,
                blo as int,
                bhi as int,
            ))
        },
{
    let la = ahi - alo;
    let lb = bhi - blo;
    if la > lb {
        return Ordering::Greater;
    }
    if la < lb {
        return Ordering::Less;
    }
    let ghost s1 = a@.subrange(alo as int, ahi as int);
    let ghost s2 = b@.subrange(blo as int, bhi as int);
    let mut i = la;
    while i > 0
        invariant
            i <= la,
            la == ahi - alo == bhi - blo,
            alo <= ahi <= a@.len(),
            blo <= bhi <= b@.len(),
            s1 == a@.subrange(alo as int, ahi as int),
            s2 == b@.subrange(blo as int, bhi as int),
            forall|j: int| i <= j < la ==> s1[j] == s2[j],
        decreases i,
    {
        let x = a[alo + i - 1];
        let y = b[blo + i - 1];
        if x < y {
            proof {
                lemma_cmp_at(s1, s2, i - 1 as int);
            }
            return Ordering::Less;
        }
        if x > y {
            proof {
                lemma_cmp_at(s2, s1, i - 1 as int);
            }
            return Ordering::Greater;
        }
        i = i - 1;
    }
    proof {
        assert(s1 =~= s2);
    }
    Ordering::Equal
}


/// Subtract the window of `b` from `out[off..]` in place, borrowing through
/// the rest of `out`; if the window were smaller than `b` it would be wiped
/// to zero, but callers guarantee it is not.
pub(crate) fn sub_at(out: &mut Vec<u64>, off: usize, hi: usize, b: &Vec<u64>, blo: usize, bhi: usize)
    requires
        blo <= bhi <= b.len(),
        off + (bhi - blo) <= hi <= old(out).len(),
        win(old(out)@, off as int, hi as int) >= win(b@, blo as int, bhi as int),
    ensures
        final(out)@.len() == old(out)@.len(),
        forall|k: int|
            0 <= k < final(out)@.len() && !(off <= k < hi) ==> final(out)@[k] == old(out)@[k],
        win(final(out)@, off as int, hi as int) == win(old(out)@, off as int, hi as int) - win(
            b@,
            blo as int,
            bhi as int,
        ),
{
    let ghost o0 = out@;
    let blen = bhi - blo;
    let len = hi;
    proof {
        lemma_win_empty(out@, off as int);
        lemma_win_empty(b@, blo as int);
    }
    match cmp_win(out, off, len, b, blo, bhi) {
        Ordering::Less => {
            proof {
                assert(false);
            }
            clear_win(out, off, len);
        },
        _ => {
            let mut borrow: i128 = 0;
            let mut i: usize = 0;
            while i < blen
                invariant
                    i <= blen,
                    blo + blen <= b.len(),
                    off + blen <= len <= out.len(),
                    out@.len() == o0.len(),
                    -1 <= borrow <= 0,
                    forall|k: int|
                        0 <= k < out@.len() && !(off <= k < off + i) ==> out@[k] == o0[k],
                    win(out@, off as int, off + i) + borrow * pow2(64 * i as nat) == win(
                        o0,
                        off as int,
                        off + i,
                    ) - win(b@, blo as int, blo + i),
                decreases blen - i,
            {
                let ghost prev = out@;
                let ghost b0 = borrow as int;
                let acc = out[off + i];
                let x = sub_kernel(acc, b[blo + i], &mut borrow);
                out[off + i] = x;
                i = i + 1;
                proof {
                    lemma_step_sub(
                        prev,
                        out@,
                        off as int,
                        i - 1,
                        x,
                        b0,
                        borrow as int,
                        acc - b@[blo + i - 1],
                    );
                    lemma_win_hi(o0, off as int, off + i - 1);
                    lemma_win_hi(b@, blo as int, blo + i - 1);
                    assert(o0[off + i - 1] == acc);
                    assert((acc - b@[blo + i - 1]) * pow2(64 * (i - 1) as nat) == acc * pow2(
                        64 * (i - 1) as nat,
                    ) - b@[blo + i - 1] * pow2(64 * (i - 1) as nat)) by (nonlinear_arith);
                }
            }
            let mut k: usize = off + blen;
            while k < len
                invariant
                    off + blen <= k <= len <= out.len(),
                    out@.len() == o0.len(),
                    -1 <= borrow <= 0,
                    forall|j: int|
                        0 <= j < out@.len() && !(off <= j < k) ==> out@[j] == o0[j],
                    win(out@, off as int, k as int) + borrow * pow2(64 * (k - off) as nat)
                        == win(o0, off as int, k as int) - win(b@, blo as int, bhi as int),
                decreases len - k,
            {
                let ghost prev = out@;
                let ghost b0 = borrow as int;
                let acc = out[k];
                let x = sub_kernel(acc, 0, &mut borrow);
                out[k] = x;
                k = k + 1;
                proof {
                    lemma_step_sub(
                        prev,
                        out@,
                        off as int,
                        k - 1 - off,
                        x,
                        b0,
                        borrow as int,
                        acc as int,
                    );
                    lemma_win_hi(o0, off as int, k - 1);
                    assert(o0[k - 1] == acc);
                }
            }
            proof {
                assert(out@.subrange(off as int, len as int).len() == len - off);
                lemma_val_bound(out@.subrange(off as int, len as int));
                if borrow != 0 {
                    lemma_pow2_pos(64 * (len - off) as nat);
                    assert(win(out@, off as int, len as int) + borrow * pow2(
                        64 * (len - off) as nat,
                    ) <= win(out@, off as int, len as int) - pow2(64 * (len - off) as nat))
                        by (nonlinear_arith)
                        requires
                            borrow <= -1,
                            pow2(64 * (len - off) as nat) > 0,
                    ;
                    assert(false);
                }
            }
        },
    }
}

/// Scale the window `v[..n]` by a single limb factor, in place; the caller
/// guarantees the scaled value still fits in the window.
pub(crate) fn scale_win(v: &mut Vec<u64>, n: usize, f: u64)
    requires
        n <= old(v).len(),
        win(old(v)@, 0, n as int) * f < pow2(64 * n as nat),
    ensures
        final(v)@.len() == old(v)@.len(),
        forall|k: int| n <= k < final(v)@.len() ==> final(v)@[k] == old(v)@[k],
        win(final(v)@, 0, n as int) == win(old(v)@, 0, n as int) * f,
{
    let ghost v0 = v@;
    proof {
        lemma_win_empty(v@, 0);
    }
    let mut carry: u128 = 0;
    let mut i: usize = 0;
    while i < n
        invariant
            i <= n <= v.len(),
            v@.len() == v0.len(),
            carry <= 0xffffffffffffffff,
            forall|k: int| 0 <= k < v@.len() && !(0 <= k < i) ==> v@[k] == v0[k],
            win(v@, 0, i as int) + carry * pow2(64 * i as nat) == win(v0, 0, i as int) * f,
        decreases n - i,
    {
        let ghost prev = v@;
        let ghost c0 = carry;
        let acc = v[i];
        let x = mul_kernel(0, acc, f, &mut carry);
        v[i] = x;
        i = i + 1;
        proof {
            lemma_step_add(
                prev,
                v@,
                v0,
                prev,
                prev,
                0,
                0,
                0,
                i - 1,
                x,
                c0 as nat,
                carry as nat,
                acc as nat * f as nat,
            );
            lemma_win_hi(v0, 0, i - 1);
            assert(v0[i - 1] == acc);
            assert((win(v0, 0, i - 1) + acc as nat * f as nat) == win(v0, 0, i - 1) + acc as nat
                * f as nat);
            assert((win(v0, 0, i - 1) + acc as nat * pow2(64 * (i - 1) as nat)) * f == win(
                v0,
                0,
                i - 1,
            ) * f + acc as nat * f as nat * pow2(64 * (i - 1) as nat)) by (nonlinear_arith);
        }
    }
    proof {
        lemma_val_bound(v@.subrange(0, n as int));
        if carry != 0 {
            lemma_pow2_pos(64 * n as nat);
            assert(carry * pow2(64 * n as nat) >= pow2(64 * n as nat)) by (nonlinear_arith)
                requires
                    carry >= 1,
                    pow2(64 * n as nat) > 0,
            ;
            assert(false);
        }
    }
}

/// Fused multiply-accumulate of a window: `out[off..] += a_window * f`,
/// rippling the final carry; the caller guarantees no overflow of `out`.
pub(crate) fn mul_limb_at(
    out: &mut Vec<u64>,
    off: usize,
    hi: usize,
    a: &Vec<u64>,
    alo: usize,
    ahi: usize,
    f: u64,
)
    requires
        alo <= ahi <= a.len(),
        off + (ahi - alo) <= hi <= old(out).len(),
        win(old(out)@, off as int, hi as int) + win(a@, alo as int, ahi as int) * f < pow2(
            64 * (hi - off) as nat,
        ),
    ensures
        final(out)@.len() == old(out)@.len(),
        forall|k: int|
            0 <= k < final(out)@.len() && !(off <= k < hi) ==> final(out)@[k] == old(out)@[k],
        win(final(out)@, off as int, hi as int) == win(old(out)@, off as int, hi as int) + win(
            a@,
            alo as int,
            ahi as int,
        ) * f,
{
    let ghost o0 = out@;
    let alen = ahi - alo;
    let len = hi;
    proof {
        lemma_win_empty(out@, off as int);
        lemma_win_empty(a@, alo as int);
        if f == 0 {
            assert(win(a@, alo as int, ahi as int) * 0 == 0) by (nonlinear_arith);
        }
    }
    if f == 0 {
        return ;
    }
    let mut carry: u128 = 0;
    let mut i: usize = 0;
    while i < alen
        invariant
            i <= alen,
            alo + alen <= a.len(),
            off + alen <= len <= out.len(),
            out@.len() == o0.len(),
            f > 0,
            carry <= 0xffffffffffffffff,
            forall|k: int| 0 <= k < out@.len() && !(off <= k < off + i) ==> out@[k] == o0[k],
            win(out@, off as int, off + i) + carry * pow2(64 * i as nat) == win(
                o0,
                off as int,
                off + i,
            ) + win(a@, alo as int, alo + i) * f,
        decreases alen - i,
    {
        let ghost prev = out@;
        let ghost c0 = carry;
        let acc = out[off + i];
        let x = mul_kernel(acc, a[alo + i], f, &mut carry);
        out[off + i] = x;
        i = i + 1;
        proof {
            lemma_step_add(
                prev,
                out@,
                o0,
                prev,
                prev,
                off as int,
                off as int,
                0,
                i - 1,
                x,
                c0 as nat,
                carry as nat,
                acc as nat + a@[alo + i - 1] as nat * f as nat,
            );
            lemma_win_hi(o0, off as int, off + i - 1);
            lemma_win_hi(a@, alo as int, alo + i - 1);
            assert(o0[off + i - 1] == acc);
            let p = pow2(64 * (i - 1) as nat);
            assert((acc as nat + a@[alo + i - 1] as nat * f as nat) * p == acc as nat * p + a@[alo
                + i - 1] as nat * f as nat * p) by (nonlinear_arith);
            assert((win(a@, alo as int, alo + i - 1) + a@[alo + i - 1] as nat * p) * f == win(
                a@,
                alo as int,
                alo + i - 1,
            ) * f + a@[alo + i - 1] as nat * f as nat * p) by (nonlinear_arith);
        }
    }
    let mut k: usize = off + alen;
    while carry != 0 && k < len
        invariant
            off + alen <= k <= len <= out.len(),
            out@.len() == o0.len(),
            carry <= 0xffffffffffffffff,
            forall|j: int| 0 <= j < out@.len() && !(off <= j < k) ==> out@[j] == o0[j],
            win(out@, off as int, k as int) + carry * pow2(64 * (k - off) as nat) == win(
                o0,
                off as int,
                k as int,
            ) + win(a@, alo as int, ahi as int) * f,
        decreases len - k,
    {
        let ghost prev = out@;
        let ghost c0 = carry;
        let acc = out[k];
        let x = add_kernel(acc, 0, &mut carry);
        out[k] = x;
        k = k + 1;
        proof {
            lemma_step_add(
                prev,
                out@,
                o0,
                prev,
                prev,
                off as int,
                off as int,
                0,
                k - 1 - off,
                x,
                c0 as nat,
                carry as nat,
                acc as nat,
            );
            lemma_win_hi(o0, off as int, k - 1);
            assert(o0[k - 1] == acc);
        }
    }
    proof {
        lemma_finish_ripple_mul(
            out@,
            o0,
            a@,
            off as int,
            hi as int,
            k as int,
            alo as int,
            ahi as int,
            f as nat,
            carry as nat,
        );
    }
}

/// Companion to the ripple argument, for a scaled addend.
proof fn lemma_finish_ripple_mul(
    cur: Seq<u64>,
    o0: Seq<u64>,
    a: Seq<u64>,
    off: int,
    hi: int,
    k: int,
    alo: int,
    ahi: int,
    f: nat,
    carry: nat,
)
    requires
        cur.len() == o0.len(),
        0 <= off <= k <= hi <= cur.len(),
        0 <= alo <= ahi <= a.len(),
        carry == 0 || k == hi,
        forall|j: int| 0 <= j < cur.len() && !(off <= j < k) ==> cur[j] == o0[j],
        win(cur, off, k) + carry * pow2(64 * (k - off) as nat) == win(o0, off, k) + win(
            a,
            alo,
            ahi,
        ) * f,
        win(o0, off, hi) + win(a, alo, ahi) * f < pow2(64 * (hi - off) as nat),
    ensures
        win(cur, off, hi) == win(o0, off, hi) + win(a, alo, ahi) * f,
{
    let n = hi;
    lemma_val_three(cur.subrange(off, n), 0, k - off);
    lemma_val_three(o0.subrange(off, n), 0, k - off);
    assert(cur.subrange(off, n).subrange(0, 0) =~= Seq::<u64>::empty());
    assert(o0.subrange(off, n).subrange(0, 0) =~= Seq::<u64>::empty());
    assert(cur.subrange(off, n).subrange(0, k - off) =~= cur.subrange(off, k));
    assert(o0.subrange(off, n).subrange(0, k - off) =~= o0.subrange(off, k));
    assert(cur.subrange(off, n).skip(k - off) =~= cur.subrange(k, n));
    assert(o0.subrange(off, n).skip(k - off) =~= o0.subrange(k, n));
    assert(cur.subrange(k, n) =~= o0.subrange(k, n));
    lemma2_to64();
    assert(pow2(0) == 1);
    let p = pow2(64 * (k - off) as nat);
    let tail = val(o0.subrange(k, n));
    assert(win(cur, off, n) * 1 == win(cur, off, k) * 1 + tail * p) by (nonlinear_arith)
        requires
            win(cur, off, n) == 0 + win(cur, off, k) * 1 + tail * p,
    ;
    assert(win(o0, off, n) * 1 == win(o0, off, k) * 1 + tail * p) by (nonlinear_arith)
        requires
            win(o0, off, n) == 0 + win(o0, off, k) * 1 + tail * p,
    ;
    if carry != 0 {
        assert(k == n);
        assert(cur.subrange(off, k) =~= cur.subrange(off, n));
        assert(o0.subrange(off, k) =~= o0.subrange(off, n));
        lemma_pow2_pos(64 * (n - off) as nat);
        assert(carry * pow2(64 * (n - off) as nat) >= pow2(64 * (n - off) as nat))
            by (nonlinear_arith)
            requires
                carry >= 1,
                pow2(64 * (n - off) as nat) > 0,
        ;
        assert(false);
    }
}

/// In-place single-limb division of the window `v[..n]`, most-significant
/// limb first; returns the remainder.
pub(crate) fn div_rem0(v: &mut Vec<u64>, n: usize, d: u64) -> (r: u64)
    requires
        d > 0,
        n <= old(v).len(),
    ensures
        final(v)@.len() == old(v)@.len(),
        forall|k: int| n <= k < final(v)@.len() ==> final(v)@[k] == old(v)@[k],
        win(final(v)@, 0, n as int) == win(old(v)@, 0, n as int) / d as nat,
        r == win(old(v)@, 0, n as int) % d as nat,
{
    let ghost v0 = v@;
    proof {
        lemma_win_empty(v@, n as int);
    }
    let mut r: u64 = 0;
    let mut i: usize = n;
    while i > 0
        invariant
            i <= n <= v.len(),
            v@.len() == v0.len(),
            d > 0,
            r < d,
            forall|k: int| 0 <= k < v@.len() && !(i <= k < n) ==> v@[k] == v0[k],
            win(v0, i as int, n as int) == win(v@, i as int, n as int) * d + r,
        decreases i,
    {
        let ghost prev = v@;
        let ghost r0 = r;
        let (q, rm) = div_rem_kernel(r, v[i - 1], d);
        v[i - 1] = q;
        r = rm;
        i = i - 1;
        proof {
            lemma_step_div(prev, v@, v0, i as int, n as int, q, d, r0 as nat, rm as nat);
        }
    }
    proof {
        lemma_fundamental_div_mod_converse(
            win(v0, 0, n as int) as int,
            d as int,
            win(v@, 0, n as int) as int,
            r as int,
        );
    }
    r
}

/// One step of schoolbook single-limb division, from the top limb down.
proof fn lemma_step_div(
    prev: Seq<u64>,
    cur: Seq<u64>,
    v0: Seq<u64>,
    i: int,
    n: int,
    q: u64,
    d: u64,
    r0: nat,
    rm: nat,
)
    requires
        0 <= i < n <= cur.len(),
        prev.len() == cur.len() == v0.len(),
        cur == prev.update(i, q),
        q * d + rm == r0 * 0x10000000000000000 + prev[i],
        prev[i] == v0[i],
        win(v0, i + 1, n) == win(prev, i + 1, n) * d + r0,
    ensures
        win(v0, i, n) == win(cur, i, n) * d + rm,
        forall|k: int| 0 <= k < cur.len() && k != i ==> cur[k] == prev[k],
{
    assert(cur.subrange(i + 1, n) =~= prev.subrange(i + 1, n));
    lemma_win_lo(v0, i + 1, n);
    lemma_win_lo(cur, i + 1, n);
    assert(cur[i] == q);
    let w = win(cur, i + 1, n);
    assert(win(v0, i, n) == v0[i] + (w * d + r0) * 0x10000000000000000);
    assert((w * d + r0) * 0x10000000000000000 == w * 0x10000000000000000 * d + r0
        * 0x10000000000000000) by (nonlinear_arith);
    assert((q + w * 0x10000000000000000) * d == q * d + w * 0x10000000000000000 * d)
        by (nonlinear_arith);
}

/// Shift the window `v[..n]` left by `s` bits (`s < 64`), in place; the
/// caller guarantees the top bits do not run off the window.
pub(crate) fn shift_left_win(v: &mut Vec<u64>, n: usize, s: usize)
    requires
        n <= old(v).len(),
        s < 64,
        win(old(v)@, 0, n as int) * pow2(s as nat) < pow2(64 * n as nat),
    ensures
        final(v)@.len() == old(v)@.len(),
        forall|k: int| n <= k < final(v)@.len() ==> final(v)@[k] == old(v)@[k],
        win(final(v)@, 0, n as int) == win(old(v)@, 0, n as int) * pow2(s as nat),
{
    proof {
        lemma2_to64();
    }
    if s == 0 {
        proof {
            assert(win(v@, 0, n as int) * pow2(0) == win(v@, 0, n as int)) by (nonlinear_arith)
                requires
                    pow2(0) == 1,
            ;
        }
        return ;
    }
    proof {
        lemma_pow2_strictly_increases(s as nat, 64);
        vstd::bits::lemma_u64_shl_is_mul(1u64, s as u64);
    }
    let f: u64 = 1u64 << (s as u64);
    scale_win(v, n, f);
}

/// Shift the window `v[..n]` right by `s` bits (`s < 64`), in place,
/// discarding the bits shifted out at the bottom.
pub(crate) fn shift_right_win(v: &mut Vec<u64>, n: usize, s: usize)
    requires
        n <= old(v).len(),
        s < 64,
    ensures
        final(v)@.len() == old(v)@.len(),
        forall|k: int| n <= k < final(v)@.len() ==> final(v)@[k] == old(v)@[k],
        win(final(v)@, 0, n as int) == win(old(v)@, 0, n as int) / pow2(s as nat),
{
    proof {
        lemma2_to64();
    }
    if s == 0 {
        proof {
            lemma_div_basics(win(v@, 0, n as int) as int);
        }
        return ;
    }
    proof {
        lemma_pow2_strictly_increases(s as nat, 64);
        vstd::bits::lemma_u64_shl_is_mul(1u64, s as u64);
        lemma_pow2_pos(s as nat);
    }
    let f: u64 = 1u64 << (s as u64);
    let _ = div_rem0(v, n, f);
}


/// Bounds meaning of `u64::leading_zeros`: a nonzero limb with `z` leading
/// zeros lies in `[2^(63-z), 2^(64-z))`.
pub proof fn lemma_leading_zeros_bounds(x: u64)
    requires
        x != 0,
    ensures
        0 <= vstd::std_specs::bits::u64_leading_zeros(x) < 64,
        pow2((63 - vstd::std_specs::bits::u64_leading_zeros(x)) as nat) <= x,
        x < pow2((64 - vstd::std_specs::bits::u64_leading_zeros(x)) as nat),
    decreases x,
{
    broadcast use vstd::std_specs::bits::axiom_u64_leading_zeros;

    reveal(vstd::std_specs::bits::u64_leading_zeros);
    lemma2_to64();
    if x == 1 {
        assert(vstd::std_specs::bits::u64_leading_zeros(0u64) == 64);
        assert(vstd::std_specs::bits::u64_leading_zeros(1u64) == 63);
    } else {
        let h = x / 2;
        lemma_fundamental_div_mod(x as int, 2);
        lemma_mod_division_less_than_divisor(x as int, 2);
        lemma_leading_zeros_bounds(h);
        let l = vstd::std_specs::bits::u64_leading_zeros(h);
        assert(vstd::std_specs::bits::u64_leading_zeros(x) == l - 1);
        assert(l >= 1) by {
            if 63 - l >= 63 {
                lemma_pow2_strictly_increases(63, (63 - l) as nat);
                if 63 - l > 63 {
                    assert(pow2(63) < pow2((63 - l) as nat));
                }
                assert(pow2((63 - l) as nat) >= pow2(63));
                assert(h < pow2(63)) by {
                    assert(h <= 0x7fffffffffffffff);
                }
                assert(false);
            }
        }
        lemma_pow2_adds(1, (63 - l) as nat);
        lemma_pow2_adds(1, (64 - l) as nat);
        assert(pow2(1) == 2);
        assert(pow2((64 - l) as nat) == 2 * pow2((63 - l) as nat));
        assert(pow2((65 - l) as nat) == 2 * pow2((64 - l) as nat));
        assert(x >= 2 * h);
        assert(x <= 2 * h + 1);
    }
}


/// Composition of adjacent windows.
pub proof fn lemma_win_split(v: Seq<u64>, lo: int, mid: int, hi: int)
    requires
        0 <= lo <= mid <= hi <= v.len(),
    ensures
        win(v, lo, hi) == win(v, lo, mid) + win(v, mid, hi) * pow2(64 * (mid - lo) as nat),
{
    let s = v.subrange(lo, hi);
    lemma_val_split(s, mid - lo);
    assert(s.take(mid - lo) =~= v.subrange(lo, mid));
    assert(s.skip(mid - lo) =~= v.subrange(mid, hi));
}

/// A window of value zero is made of zero limbs.
pub proof fn lemma_val_zero_limbs(s: Seq<u64>)
    requires
        val(s) == 0,
    ensures
        forall|k: int| 0 <= k < s.len() ==> s[k] == 0,
    decreases s.len(),
{
    if s.len() > 0 {
        lemma_pow2_pos(64 * (s.len() - 1) as nat);
        if s.last() != 0 {
            lemma_val_lower(s);
            assert(false);
        }
        lemma_val_zero_limbs(s.drop_last());
        assert(forall|k: int| 0 <= k < s.len() - 1 ==> s[k] == s.drop_last()[k]);
    }
}

/// The product of two windows fits in their combined width.
pub proof fn lemma_mul_fits(x: nat, y: nat, n: nat, m: nat)
    requires
        x < pow2(64 * n),
        y < pow2(64 * m),
    ensures
        x * y < pow2(64 * (n + m)),
        x * y <= (pow2(64 * n) - 1) * (pow2(64 * m) - 1),
    decreases n,
{
    lemma_pow2_adds(64 * n, 64 * m);
    lemma_pow2_pos(64 * n);
    lemma_pow2_pos(64 * m);
    assert(x * y <= (pow2(64 * n) - 1) * (pow2(64 * m) - 1) && (pow2(64 * n) - 1) * (pow2(
        64 * m,
    ) - 1) < pow2(64 * n) * pow2(64 * m)) by (nonlinear_arith)
        requires
            x <= pow2(64 * n) - 1,
            y <= pow2(64 * m) - 1,
            pow2(64 * n) >= 1,
            pow2(64 * m) >= 1,
    ;
}


/// A fresh buffer of `n` zero limbs.
pub(crate) fn zeros(n: usize) -> (v: Vec<u64>)
    ensures
        v@.len() == n,
        forall|k: int| 0 <= k < n ==> v@[k] == 0,
{
    let mut v: Vec<u64> = Vec::new();
    while v.len() < n
        invariant
            v@.len() <= n,
            forall|k: int| 0 <= k < v@.len() ==> v@[k] == 0,
        decreases n - v@.len(),
    {
        v.push(0);
    }
    v
}


/// A fresh buffer of `n + m` zero limbs, built without computing the sum.
pub(crate) fn zeros2(n: usize, m: usize) -> (v: Vec<u64>)
    ensures
        v@.len() == n + m,
        forall|k: int| 0 <= k < v@.len() ==> v@[k] == 0,
{
    let mut v = zeros(n);
    let mut i: usize = 0;
    while i < m
        invariant
            i <= m,
            v@.len() == n + i,
            forall|k: int| 0 <= k < v@.len() ==> v@[k] == 0,
        decreases m - i,
    {
        v.push(0);
        i = i + 1;
    }
    v
}

} // verus!
