//! Long division of magnitudes: normalize by a left shift so the divisor's
//! top limb has its high bit set, then for each output position estimate a
//! quotient chunk from the top limbs, multiply back, correct the estimate
//! downward if it overshoots, and subtract.

use vstd::prelude::*;
use vstd::arithmetic::power2::*;
use vstd::arithmetic::div_mod::*;
use core::cmp::Ordering;
use crate::limbs::{
    add_at, clear_win, cmp_win, copy_win, div_rem0, lemma_leading_zeros_bounds, lemma_val_bound,
    lemma_val_lower, lemma_val_prefix, lemma_val_zeros, lemma_win_split,
    shift_left_win, shift_right_win, sub_at, trim_win, trimmed, win, zeros, zeros2,
};
use crate::mul::mul_at;

verus! {

/// A trimmed window with a shorter length has the smaller value.
proof fn lemma_trimmed_lt(s1: Seq<u64>, s2: Seq<u64>)
    requires
        trimmed(s1),
        trimmed(s2),
        s1.len() < s2.len(),
    ensures
        val(s1) < val(s2),
{
    lemma_val_bound(s1);
    lemma_val_lower(s2);
    if s1.len() < s2.len() - 1 {
        lemma_pow2_strictly_increases(64 * s1.len(), 64 * (s2.len() - 1) as nat);
    }
}

use crate::limbs::val;

/// A trimmed window below `2^(64k)` has at most `k` limbs.
proof fn lemma_trimmed_len_le(s: Seq<u64>, k: int)
    requires
        trimmed(s),
        0 <= k,
        val(s) < pow2((64 * k) as nat),
    ensures
        s.len() <= k,
{
    if s.len() > k {
        lemma_val_lower(s);
        if k < s.len() - 1 {
            lemma_pow2_strictly_increases((64 * k) as nat, (64 * (s.len() - 1)) as nat);
        }
        assert(false);
    }
}

/// Division with remainder over magnitudes, Knuth-style.  `a` holds the
/// dividend with one spare top limb and ends holding the remainder, `b`
/// holds the divisor and ends normalized (left-shifted), and the quotient
/// is accumulated into the zeroed `out`.
#[verifier::rlimit(100)]
#[verifier::spinoff_prover]
pub(crate) fn div_rem(a: &mut Vec<u64>, b: &mut Vec<u64>, out: &mut Vec<u64>)
    requires
        old(b).len() > 0,
        old(b)@.last() != 0,
        old(a).len() > 0,
        old(a)@.last() == 0,
        forall|k: int| 0 <= k < old(out).len() ==> old(out)@[k] == 0,
        old(out).len() + old(b).len() <= old(a).len() + 1,
        old(out).len() > 0,
        val(old(a)@) < val(old(b)@) * pow2(64 * old(out).len() as nat),
    ensures
        final(a)@.len() == old(a)@.len(),
        final(b)@.len() == old(b)@.len(),
        final(out)@.len() == old(out)@.len(),
        val(final(out)@) == val(old(a)@) / val(old(b)@),
        val(final(a)@) == val(old(a)@) % val(old(b)@),
{
    let alen = a.len();
    let blen = b.len();
    let qlen = out.len();
    let ghost a0v = val(a@);
    let ghost b0v = val(b@);
    let top = b[blen - 1];
    let shift = top.leading_zeros() as usize;
    proof {
        lemma_leading_zeros_bounds(top);
        lemma2_to64();
        lemma2_to64_rest();
        // the divisor, shifted, still fits its limbs and gains a set top bit
        let z = vstd::std_specs::bits::u64_leading_zeros(top);
        let w = pow2(64 * (blen - 1) as nat);
        lemma_pow2_pos(64 * (blen - 1) as nat);
        assert(b@.subrange(0, blen as int) =~= b@);
        lemma_win_split(b@, 0, blen - 1, blen as int);
        assert(win(b@, blen - 1, blen as int) == top) by {
            crate::limbs::lemma_win_single(b@, blen - 1);
        }
        lemma_val_bound(b@.subrange(0, blen - 1));
        lemma_pow2_adds((64 - z) as nat, 64 * (blen - 1) as nat);
        lemma_pow2_adds((63 - z) as nat, z as nat);
        lemma_pow2_adds((64 - z) as nat, z as nat);
        lemma_pow2_adds(64 * (blen - 1) as nat, 64);
        lemma_pow2_pos(z as nat);
        lemma_pow2_pos((63 - z) as nat);
        lemma_pow2_pos((64 - z) as nat);
        assert(b0v * pow2(z as nat) < pow2(64 * blen as nat)) by (nonlinear_arith)
            requires
                b0v == win(b@, 0, blen - 1) + top * pow2(64 * (blen - 1) as nat),
                win(b@, 0, blen - 1) < pow2(64 * (blen - 1) as nat),
                top < pow2((64 - z) as nat),
                pow2((64 - z) as nat) * pow2(z as nat) == pow2(64),
                pow2(64 * (blen - 1) as nat) * pow2(64) == pow2(64 * blen as nat),
                pow2(64 * (blen - 1) as nat) > 0,
                pow2(z as nat) > 0,
                pow2(64) > 0,
        ;
        assert(b0v * pow2(z as nat) >= pow2(63) * pow2(64 * (blen - 1) as nat))
            by (nonlinear_arith)
            requires
                b0v >= top * pow2(64 * (blen - 1) as nat),
                top >= pow2((63 - z) as nat),
                pow2((63 - z) as nat) * pow2(z as nat) == pow2(63),
                pow2(64 * (blen - 1) as nat) > 0,
                pow2(z as nat) > 0,
        ;
    }
    shift_left_win(b, blen, shift);
    proof {
        // the dividend has a spare zero top limb, so it cannot overflow
        assert(a@.subrange(0, alen as int) =~= a@);
        lemma_val_prefix(a@, alen - 1);
        assert(a@.take(alen - 1) =~= a@.subrange(0, alen - 1));
        lemma_val_bound(a@.subrange(0, alen - 1));
        lemma_pow2_adds(64 * (alen - 1) as nat, 64);
        lemma_pow2_strictly_increases(shift as nat, 64);
        lemma_pow2_pos(shift as nat);
        assert(val(a@) * pow2(shift as nat) < pow2(64 * alen as nat)) by (nonlinear_arith)
            requires
                val(a@) < pow2(64 * (alen - 1) as nat),
                pow2(shift as nat) < pow2(64),
                pow2(64 * (alen - 1) as nat) * pow2(64) == pow2(64 * alen as nat),
                pow2(64 * (alen - 1) as nat) > 0,
                pow2(64) > 0,
        ;
    }
    shift_left_win(a, alen, shift);
    let ghost s = pow2(shift as nat);
    let ghost bv = b0v * s;
    let bn = b[blen - 1];
    proof {
        assert(b@.subrange(0, blen as int) =~= b@);
        assert(a@.subrange(0, alen as int) =~= a@);
        // the normalized top limb of the divisor
        lemma_win_split(b@, 0, blen - 1, blen as int);
        assert(win(b@, blen - 1, blen as int) == bn) by {
            crate::limbs::lemma_win_single(b@, blen - 1);
        }
        lemma_val_bound(b@.subrange(0, blen - 1));
        let w = pow2(64 * (blen - 1) as nat);
        lemma_pow2_pos(64 * (blen - 1) as nat);
        lemma2_to64();
        lemma2_to64_rest();
        let z = vstd::std_specs::bits::u64_leading_zeros(top);
        assert(shift == z);
        assert(s == pow2(z as nat));
        assert(bv >= 0x8000000000000000 * w) by (nonlinear_arith)
            requires
                bv == b0v * s,
                s == pow2(z as nat),
                b0v * pow2(z as nat) >= pow2(63) * pow2(64 * (blen - 1) as nat),
                pow2(63) == 0x8000000000000000,
                w == pow2(64 * (blen - 1) as nat),
        ;
        assert(bn >= 0x8000000000000000) by (nonlinear_arith)
            requires
                bv == win(b@, 0, blen - 1) + bn * w,
                win(b@, 0, blen - 1) < w,
                bv >= 0x8000000000000000 * w,
                w > 0,
        ;
        // the whole-dividend bound scales with the shift
        assert(a0v * s < bv * pow2(64 * qlen as nat)) by (nonlinear_arith)
            requires
                a0v < b0v * pow2(64 * qlen as nat),
                bv == b0v * s,
                s > 0,
        ;
    }
    let mut a_len = trim_win(a, 0, alen);
    let mut t0 = zeros(alen);
    let mut t1 = zeros2(alen, blen);
    let mut one = zeros(1);
    one[0] = 1;
    proof {
        crate::limbs::lemma_win_single(one@, 0);
        assert(one@.subrange(0, 1) =~= one@);
        lemma_val_zeros(out@);
        assert(val(out@) * bv == 0) by (nonlinear_arith)
            requires
                val(out@) == 0,
        ;
        assert(a@.subrange(0, alen as int) =~= a@);
    }
    let mut j = qlen;
    while j > 0
        invariant
            j <= qlen,
            alen == a.len(),
            blen == b.len(),
            qlen == out.len(),
            blen > 0,
            t0.len() == alen,
            t1.len() == alen + blen,
            one.len() == 1,
            one@[0] == 1,
            win(one@, 0, 1) == 1,
            qlen + blen <= alen + 1,
            bn == b@[blen - 1],
            bn >= 0x8000000000000000,
            bv == val(b@),
            bn * pow2(64 * (blen - 1) as nat) <= bv,
            bv < pow2(64 * blen as nat),
            a_len <= alen,
            forall|k: int| a_len <= k < alen ==> a@[k] == 0,
            trimmed(a@.subrange(0, a_len as int)),
            forall|k: int| 0 <= k < j ==> out@[k] == 0,
            a0v * s < bv * pow2(64 * qlen as nat),
            val(out@) * bv + val(a@) == a0v * s,
            val(a@) < bv * pow2(64 * j as nat),
        decreases j,
    {
        j = j - 1;
        let offset = j + blen - 1;
        if offset >= a_len {
            proof {
                assert(a@.subrange(0, alen as int) =~= a@);
                lemma_val_prefix(a@, a_len as int);
                assert(a@.take(a_len as int) =~= a@.subrange(0, a_len as int));
                lemma_val_bound(a@.subrange(0, a_len as int));
                let w = pow2(64 * (blen - 1) as nat);
                lemma_pow2_pos(64 * (blen - 1) as nat);
                lemma_pow2_adds(64 * (blen - 1) as nat, 64 * j as nat);
                if a_len < offset {
                    lemma_pow2_strictly_increases(64 * a_len as nat, 64 * offset as nat);
                }
                lemma_pow2_pos(64 * j as nat);
                assert(val(a@) < bv * pow2(64 * j as nat)) by (nonlinear_arith)
                    requires
                        val(a@) < pow2(64 * offset as nat),
                        pow2(64 * offset as nat) == pow2(64 * (blen - 1) as nat) * pow2(
                            64 * j as nat,
                        ),
                        bv >= bn * pow2(64 * (blen - 1) as nat),
                        bn >= 1,
                        pow2(64 * (blen - 1) as nat) > 0,
                        pow2(64 * j as nat) > 0,
                ;
            }
            continue ;
        }
        let c = a_len - offset;
        let ghost awin = win(a@, j as int, a_len as int);
        let ghost qt = awin / bv;
        proof {
            lemma_pow2_pos(64 * (blen - 1) as nat);
            lemma_pow2_pos(64 * j as nat);
            assert(bv > 0) by (nonlinear_arith)
                requires
                    bv >= bn * pow2(64 * (blen - 1) as nat),
                    bn >= 1,
                    pow2(64 * (blen - 1) as nat) > 0,
            ;
        }
        copy_win(&mut t0, 0, a, offset, c);
        let ghost hi = win(a@, offset as int, a_len as int);
        proof {
            assert(t0@.subrange(0, c as int) =~= a@.subrange(offset as int, a_len as int));
        }
        let _ = div_rem0(&mut t0, c, bn);
        let t0end = trim_win(&t0, 0, c);
        proof {
            // the estimate from the top limbs is at least the true digit
            assert(win(t0@, 0, t0end as int) == hi / (bn as nat));
            lemma_win_split(a@, j as int, offset as int, a_len as int);
            lemma_val_bound(a@.subrange(j as int, offset as int));
            lemma_fundamental_div_mod_converse(
                awin as int,
                pow2(64 * (blen - 1) as nat) as int,
                hi as int,
                win(a@, j as int, offset as int) as int,
            );
            lemma_pow2_pos(64 * (blen - 1) as nat);
            assert(bn * pow2(64 * (blen - 1) as nat) >= 1) by (nonlinear_arith)
                requires
                    bn >= 1,
                    pow2(64 * (blen - 1) as nat) >= 1,
            ;
            lemma_div_is_ordered_by_denominator(
                awin as int,
                (bn * pow2(64 * (blen - 1) as nat)) as int,
                bv as int,
            );
            lemma_div_denominator(awin as int, pow2(64 * (blen - 1) as nat) as int, bn as int);
            assert(pow2(64 * (blen - 1) as nat) * bn == bn * pow2(64 * (blen - 1) as nat))
                by (nonlinear_arith);
            assert(qt <= hi / (bn as nat));
        }
        let t1cap = blen + t0end;
        clear_win(&mut t1, 0, t1cap);
        proof {
            lemma_val_bound(b@.subrange(0, blen as int));
            lemma_val_bound(t0@.subrange(0, t0end as int));
            assert(b@.subrange(0, blen as int) =~= b@);
            crate::limbs::lemma_mul_fits(
                bv,
                win(t0@, 0, t0end as int),
                blen as nat,
                t0end as nat,
            );
        }
        mul_at(b, 0, blen, &t0, 0, t0end, &mut t1, 0, t1cap);
        let mut t1end = trim_win(&t1, 0, t1cap);
        let mut t0e = t0end;
        // correct the estimate downward while it overshoots the window
        loop
            invariant
                alen == a.len(),
                blen == b.len(),
                t0.len() == alen,
                t1.len() == alen + blen,
                one.len() == 1,
                one@[0] == 1,
                win(one@, 0, 1) == 1,
                t0e <= alen,
                t1end <= t1.len(),
                j + blen - 1 < a_len <= alen,
                forall|k: int| a_len <= k < alen ==> a@[k] == 0,
                trimmed(a@.subrange(0, a_len as int)),
                trimmed(t0@.subrange(0, t0e as int)),
                trimmed(t1@.subrange(0, t1end as int)),
                win(t1@, 0, t1end as int) == win(t0@, 0, t0e as int) * bv,
                win(t0@, 0, t0e as int) >= qt,
                awin == win(a@, j as int, a_len as int),
                qt == awin / bv,
                bv == val(b@),
                bv > 0,
                b@.subrange(0, blen as int) =~= b@,
            ensures
                win(t0@, 0, t0e as int) == qt,
                win(t1@, 0, t1end as int) == qt * bv,
            decreases win(t0@, 0, t0e as int),
        {
            let r = cmp_win(&t1, 0, t1end, a, j, a_len);
            let ghost t1v = win(t1@, 0, t1end as int);
            let ghost t0v = win(t0@, 0, t0e as int);
            proof {
                lemma_fundamental_div_mod(awin as int, bv as int);
                lemma_mod_division_less_than_divisor(awin as int, bv as int);
                if t1end < a_len - j {
                    lemma_trimmed_lt(
                        t1@.subrange(0, t1end as int),
                        a@.subrange(j as int, a_len as int),
                    );
                }
                if t1end > a_len - j {
                    lemma_trimmed_lt(
                        a@.subrange(j as int, a_len as int),
                        t1@.subrange(0, t1end as int),
                    );
                }
            }
            match r {
                Ordering::Greater => {
                    proof {
                        // overshoot: the current digit is above the target
                        assert(t1v > awin);
                        if t0v <= qt {
                            assert(t0v * bv <= qt * bv) by (nonlinear_arith)
                                requires
                                    t0v <= qt,
                                    bv > 0,
                            ;
                            assert(qt * bv <= awin);
                            assert(false);
                        }
                        assert(t0v >= 1);
                        assert(t0v * bv >= 1 * bv) by (nonlinear_arith)
                            requires
                                t0v >= 1,
                                bv > 0,
                        ;
                    }
                    let ghost t0_prev = t0@;
                    sub_at(&mut t0, 0, t0e, &one, 0, 1);
                    let ghost t0mid = t0@;
                    t0e = trim_win(&t0, 0, t0e);
                    sub_at(&mut t1, 0, t1end, b, 0, blen);
                    t1end = trim_win(&t1, 0, t1end);
                    proof {
                        assert(win(t1@, 0, t1end as int) == t1v - bv);
                        assert(win(t0@, 0, t0e as int) == t0v - 1);
                        assert((t0v - 1) * bv == t0v * bv - 1 * bv) by (nonlinear_arith);
                    }
                },
                _ => {
                    proof {
                        assert(t1v <= awin);
                        assert(t0v <= qt) by {
                            lemma_div_is_ordered((t0v * bv) as int, awin as int, bv as int);
                            lemma_div_multiples_vanish(t0v as int, bv as int);
                            assert(bv * t0v == t0v * bv) by (nonlinear_arith);
                        }
                        assert(t0v == qt);
                    }
                    break ;
                },
            }
        }
        // accumulate the digit into the quotient and subtract the product
        proof {
            lemma_pow2_pos(64 * j as nat);
            lemma_pow2_pos(64 * (qlen - j) as nat);
            lemma_fundamental_div_mod(awin as int, bv as int);
            lemma_mod_division_less_than_divisor(awin as int, bv as int);
            assert(bv * qt == qt * bv) by (nonlinear_arith);
            assert(qt * bv <= awin);
            // the quotient window still fits
            lemma_val_zeros(out@.subrange(0, j as int));
            lemma_win_split(out@, 0, j as int, qlen as int);
            assert(out@.subrange(0, qlen as int) =~= out@);
            lemma_val_prefix(a@, a_len as int);
            assert(a@.take(a_len as int) =~= a@.subrange(0, a_len as int));
            assert(a@.subrange(0, alen as int) =~= a@);
            lemma_win_split(a@, 0, j as int, a_len as int);
            let ov = val(out@);
            let wq = win(out@, j as int, qlen as int);
            assert(ov == wq * pow2(64 * j as nat));
            assert(val(a@) == win(a@, 0, j as int) + awin * pow2(64 * j as nat));
            // (wq + qt) * X^j * bv <= a0v * s < bv * X^qlen
            let xj = pow2(64 * j as nat);
            assert((wq + qt) * xj * bv == ov * bv + qt * bv * xj) by (nonlinear_arith)
                requires
                    ov == wq * xj,
            ;
            assert(qt * bv * xj <= awin * xj) by (nonlinear_arith)
                requires
                    qt * bv <= awin,
                    xj > 0,
            ;
            assert((wq + qt) * xj * bv < bv * pow2(64 * qlen as nat));
            lemma_pow2_adds(64 * j as nat, 64 * (qlen - j) as nat);
            assert((wq + qt) * xj < pow2(64 * qlen as nat)) by (nonlinear_arith)
                requires
                    (wq + qt) * xj * bv < bv * pow2(64 * qlen as nat),
                    bv > 0,
            ;
            lemma_pow2_cancel2(wq + qt, 64 * j as nat, 64 * (qlen - j) as nat);
            lemma_trimmed_len_le(t0@.subrange(0, t0e as int), qlen - j);
            lemma_val_bound(a@.subrange(j as int, a_len as int));
            lemma_trimmed_len_le(t1@.subrange(0, t1end as int), a_len - j);
            assert(qt * bv <= awin);
            assert(win(a@, j as int, a_len as int) >= win(t1@, 0, t1end as int));
        }
        let ghost out_prev = out@;
        add_at(out, j, qlen, &t0, 0, t0e);
        let ghost a_prev = a@;
        sub_at(a, j, a_len, &t1, 0, t1end);
        let a_len_prev = a_len;
        a_len = trim_win(a, 0, a_len);
        proof {
            // out gained qt * X^j; a lost qt * bv * X^j
            let xj = pow2(64 * j as nat);
            lemma_win_split(out_prev, 0, j as int, qlen as int);
            lemma_win_split(out@, 0, j as int, qlen as int);
            assert(out@.subrange(0, j as int) =~= out_prev.subrange(0, j as int));
            assert(out@.subrange(0, qlen as int) =~= out@);
            assert(out_prev.subrange(0, qlen as int) =~= out_prev);
            lemma_val_zeros(out_prev.subrange(0, j as int));
            lemma_val_zeros(out@.subrange(0, j as int));
            assert(val(out@) == (win(out_prev, j as int, qlen as int) + qt) * xj);
            assert((win(out_prev, j as int, qlen as int) + qt) * xj == win(
                out_prev,
                j as int,
                qlen as int,
            ) * xj + qt * xj) by (nonlinear_arith);
            assert(val(out@) == val(out_prev) + qt * xj);
            // the dividend window
            lemma_win_split(a_prev, 0, j as int, a_len_prev as int);
            lemma_win_split(a@, 0, j as int, a_len_prev as int);
            assert(a@.subrange(0, j as int) =~= a_prev.subrange(0, j as int));
            lemma_val_prefix(a_prev, a_len_prev as int);
            assert(a_prev.take(a_len_prev as int) =~= a_prev.subrange(0, a_len_prev as int));
            assert(a_prev.subrange(0, alen as int) =~= a_prev);
            lemma_val_prefix(a@, a_len_prev as int);
            assert(a@.take(a_len_prev as int) =~= a@.subrange(0, a_len_prev as int));
            assert(a@.subrange(0, alen as int) =~= a@);
            assert(win(a@, j as int, a_len_prev as int) == awin - qt * bv);
            assert(val(a@) == win(a@, 0, j as int) + (awin - qt * bv) * xj);
            assert((awin - qt * bv) * xj == awin * xj - qt * bv * xj) by (nonlinear_arith);
            assert(val(a@) == val(a_prev) - qt * bv * xj);
            // the invariant algebra
            assert(val(out@) * bv == val(out_prev) * bv + qt * xj * bv) by (nonlinear_arith)
                requires
                    val(out@) == val(out_prev) + qt * xj,
            ;
            assert(qt * xj * bv == qt * bv * xj) by (nonlinear_arith);
            // the remainder window shrank below the digit weight
            lemma_fundamental_div_mod(awin as int, bv as int);
            lemma_mod_division_less_than_divisor(awin as int, bv as int);
            lemma_val_bound(a@.subrange(0, j as int));
            assert(awin - qt * bv == awin % bv);
            assert(val(a@) < bv * xj) by (nonlinear_arith)
                requires
                    val(a@) == win(a@, 0, j as int) + (awin - qt * bv) * xj,
                    win(a@, 0, j as int) < xj,
                    awin - qt * bv < bv,
                    awin - qt * bv >= 0,
                    xj > 0,
                    bv > 0,
            ;
            // out stays zero under j
            assert(forall|k: int| 0 <= k < j ==> out@[k] == out_prev[k]);
            // the trimmed length only shrank
            lemma_val_prefix(a@, a_len as int);
            assert(a@.take(a_len as int) =~= a@.subrange(0, a_len as int));
        }
    }
    // undo the normalizing shift on the remainder
    proof {
        assert(a@.subrange(0, alen as int) =~= a@);
        lemma_val_prefix(a@, a_len as int);
        assert(a@.take(a_len as int) =~= a@.subrange(0, a_len as int));
        lemma2_to64();
        assert(pow2(0) == 1);
    }
    let ghost a_shifted = val(a@);
    shift_right_win(a, a_len, shift);
    proof {
        assert(a@.subrange(0, alen as int) =~= a@);
        lemma_val_prefix(a@, a_len as int);
        assert(a@.take(a_len as int) =~= a@.subrange(0, a_len as int));
        // the remainder is an exact multiple of the shift
        let ov = val(out@);
        assert(a_shifted + ov * bv == a0v * s);
        assert(ov * b0v <= a0v) by {
            assert(ov * bv == ov * b0v * s) by (nonlinear_arith)
                requires
                    bv == b0v * s,
            ;
            if ov * b0v > a0v {
                assert(ov * b0v * s >= (a0v + 1) * s) by (nonlinear_arith)
                    requires
                        ov * b0v >= a0v + 1,
                        s > 0,
                ;
                assert((a0v + 1) * s == a0v * s + s) by (nonlinear_arith);
                assert(false);
            }
        }
        assert(a_shifted == (a0v - ov * b0v) * s) by {
            assert(ov * bv == ov * b0v * s) by (nonlinear_arith)
                requires
                    bv == b0v * s,
            ;
            assert((a0v - ov * b0v) * s == a0v * s - ov * b0v * s) by (nonlinear_arith);
        }
        assert(val(a@) == a0v - ov * b0v) by {
            assert(a_shifted / s == (a0v - ov * b0v) as nat) by {
                lemma_div_multiples_vanish((a0v - ov * b0v) as int, s as int);
                assert(s * (a0v - ov * b0v) == (a0v - ov * b0v) * s) by (nonlinear_arith);
            }
        }
        assert(a0v - ov * b0v < b0v) by {
            lemma_pow2_pos(shift as nat);
            assert(a_shifted < bv * pow2(0));
            assert(bv * pow2(0) == b0v * s) by (nonlinear_arith)
                requires
                    bv == b0v * s,
                    pow2(0) == 1,
            ;
            if a0v - ov * b0v >= b0v {
                assert((a0v - ov * b0v) * s >= b0v * s) by (nonlinear_arith)
                    requires
                        a0v - ov * b0v >= b0v,
                        s > 0,
                ;
                assert(false);
            }
        }
        lemma_fundamental_div_mod_converse(
            a0v as int,
            b0v as int,
            val(out@) as int,
            (a0v - val(out@) * b0v) as int,
        );
    }
}

/// Cancel a power-of-two factor in a strict bound (window form).
proof fn lemma_pow2_cancel2(u: nat, e1: nat, e2: nat)
    requires
        u * pow2(e1) < pow2(e1 + e2),
    ensures
        u < pow2(e2),
{
    lemma_pow2_adds(e1, e2);
    lemma_pow2_pos(e1);
    lemma_pow2_pos(e2);
    if u >= pow2(e2) {
        assert(u * pow2(e1) >= pow2(e1) * pow2(e2)) by (nonlinear_arith)
            requires
                u >= pow2(e2),
                pow2(e1) > 0,
        ;
        assert(false);
    }
}

} // verus!
