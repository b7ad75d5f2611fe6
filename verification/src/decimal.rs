//! Decimal text conversion for the big integer type: parsing groups of
//! nineteen digits at a time into limbs (nineteen being the largest power
//! of ten below 2^64), and formatting by repeated division by 10^19.

use vstd::prelude::*;
use vstd::arithmetic::power2::*;
use vstd::arithmetic::div_mod::*;
use crate::limbs::{
    add_at, lemma_val_bound, lemma_val_lower, lemma_val_zeros, lemma_win_single, scale_win,
    trim_win, trimmed, val, win, div_rem0,
};
use crate::bigint::{Int, IntError, Sign};

verus! {

/// The largest power of ten that fits below 2^64.
pub(crate) const BASE: u64 = 10000000000000000000;

/// The number of decimal digits folded into each limb-sized group.
pub(crate) const POWER: usize = 19;

/// Powers of ten.
pub open spec fn p10(e: nat) -> nat
    decreases e,
{
    if e == 0 {
        1
    } else {
        10 * p10((e - 1) as nat)
    }
}

/// An ASCII decimal digit.
pub open spec fn is_digit_char(c: char) -> bool {
    48 <= c as u32 <= 57
}

/// An accepted digit-group separator: underscore or space.
pub open spec fn is_sep_char(c: char) -> bool {
    c as u32 == 95 || c as u32 == 32
}

/// The digit values of a string, most-significant first, separators
/// discarded.
pub open spec fn digit_vals(s: Seq<char>) -> Seq<u8>
    decreases s.len(),
{
    if s.len() == 0 {
        Seq::empty()
    } else {
        digit_vals(s.drop_last()) + (if is_digit_char(s.last()) {
            seq![(s.last() as u32 - 48) as u8]
        } else {
            Seq::empty()
        })
    }
}

/// The value of a sequence of digit values, most-significant first.
pub open spec fn dec_val(d: Seq<u8>) -> nat
    decreases d.len(),
{
    if d.len() == 0 {
        0
    } else {
        dec_val(d.drop_last()) * 10 + d.last() as nat
    }
}

/// The decimal digit characters of a non-negative number, no leading
/// zeros except for zero itself.
pub open spec fn dec_str(n: nat) -> Seq<char>
    decreases n,
{
    if n < 10 {
        seq![((n + 48) as u8) as char]
    } else {
        dec_str(n / 10).push(((n % 10 + 48) as u8) as char)
    }
}

/// The value of a sequence of digit values, least-significant first.
pub open spec fn lsb_val(d: Seq<u8>) -> nat
    decreases d.len(),
{
    if d.len() == 0 {
        0
    } else {
        lsb_val(d.drop_last()) + d.last() as nat * p10((d.len() - 1) as nat)
    }
}

pub(crate) proof fn lemma_p10_pos(e: nat)
    ensures
        p10(e) >= 1,
    decreases e,
{
    if e > 0 {
        lemma_p10_pos((e - 1) as nat);
    }
}

proof fn lemma_p10_19()
    ensures
        p10(19) == 10000000000000000000,
        p10(18) == 1000000000000000000,
{
    assert(p10(0) == 1);
    assert(p10(1) == 10);
    assert(p10(2) == 100);
    assert(p10(3) == 1000);
    assert(p10(4) == 10000);
    assert(p10(5) == 100000);
    assert(p10(6) == 1000000);
    assert(p10(7) == 10000000);
    assert(p10(8) == 100000000);
    assert(p10(9) == 1000000000);
    assert(p10(10) == 10000000000);
    assert(p10(11) == 100000000000);
    assert(p10(12) == 1000000000000);
    assert(p10(13) == 10000000000000);
    assert(p10(14) == 100000000000000);
    assert(p10(15) == 1000000000000000);
    assert(p10(16) == 10000000000000000);
    assert(p10(17) == 100000000000000000);
    assert(p10(18) == 1000000000000000000);
    assert(p10(19) == 10000000000000000000);
}

/// Splitting a most-significant-first digit string.
proof fn lemma_dec_val_concat(u: Seq<u8>, w: Seq<u8>)
    ensures
        dec_val(u + w) == dec_val(u) * p10(w.len()) + dec_val(w),
    decreases w.len(),
{
    if w.len() == 0 {
        assert(u + w =~= u);
        assert(dec_val(u) * 1 == dec_val(u)) by (nonlinear_arith);
    } else {
        lemma_dec_val_concat(u, w.drop_last());
        assert((u + w).drop_last() =~= u + w.drop_last());
        assert((u + w).last() == w.last());
        let a = dec_val(u);
        let b = dec_val(w.drop_last());
        let p = p10((w.len() - 1) as nat);
        assert((a * p + b) * 10 == a * (10 * p) + b * 10) by (nonlinear_arith);
    }
}

/// One digit emitted from the low end moves a factor of ten across.
pub(crate) proof fn lemma_emit(m: nat, w: nat, outd: Seq<u8>, d: u8)
    requires
        m == w * p10(outd.len()) + lsb_val(outd),
        d == w % 10,
    ensures
        m == (w / 10) * p10(outd.len() + 1) + lsb_val(outd.push(d)),
{
    lemma_fundamental_div_mod(w as int, 10);
    assert(outd.push(d).drop_last() =~= outd);
    assert(outd.push(d).last() == d);
    let l = outd.len();
    assert(lsb_val(outd.push(d)) == lsb_val(outd) + d as nat * p10(l));
    assert(p10(l + 1) == 10 * p10(l));
    assert((w / 10) * (10 * p10(l)) + (w % 10) * p10(l) == (10 * (w / 10) + w % 10) * p10(l))
        by (nonlinear_arith);
    assert(10 * (w / 10) + w % 10 == w);
    assert(w * p10(l) == (10 * (w / 10) + w % 10) * p10(l));
}

/// Least-significant-first digits, with a nonzero top digit, read in
/// reverse as the canonical decimal string.
pub(crate) proof fn lemma_lsb_decstr(d: Seq<u8>)
    requires
        d.len() > 0,
        d.last() != 0,
        forall|k: int| 0 <= k < d.len() ==> d[k] < 10,
    ensures
        dec_str(lsb_val(d)) =~= Seq::new(d.len(), |j: int| ((d[d.len() - 1 - j] + 48) as u8) as char),
    decreases d.len(),
{
    let n = lsb_val(d);
    if d.len() == 1 {
        assert(d.drop_last() =~= Seq::<u8>::empty());
        assert(p10(0) == 1);
        assert(d.last() as nat * p10(0) == d.last()) by (nonlinear_arith)
            requires
                p10(0) == 1,
        ;
        assert(lsb_val(d.drop_last()) == 0);
        assert(n == lsb_val(d.drop_last()) + d.last() as nat * p10(0));
        assert(n == d[0]);
        assert(dec_str(n) =~= seq![((n + 48) as u8) as char]);
    } else {
        let first = d[0];
        let rest = d.skip(1);
        assert(rest.last() == d.last());
        assert(rest.last() != 0);
        lemma_lsb_first(d);
        lemma_lsb_decstr(rest);
        let m = lsb_val(rest);
        assert(n == first + 10 * m);
        assert(m >= 1) by {
            lemma_lsb_top(rest);
        }
        assert(n >= 10);
        assert(n / 10 == m && n % 10 == first) by {
            lemma_fundamental_div_mod_converse(n as int, 10, m as int, first as int);
            assert(m * 10 + first == first + 10 * m) by (nonlinear_arith);
        }
        assert(dec_str(n) == dec_str(m).push(((first + 48) as u8) as char));
        assert(dec_str(m) =~= Seq::new(
            rest.len(),
            |j: int| ((rest[rest.len() - 1 - j] + 48) as u8) as char,
        ));
        assert(dec_str(n) =~= Seq::new(
            d.len(),
            |j: int| ((d[d.len() - 1 - j] + 48) as u8) as char,
        )) by {
            assert(forall|j: int|
                0 <= j < rest.len() ==> #[trigger] rest[rest.len() - 1 - j] == d[d.len() - 1
                    - j]);
        }
    }
}

/// Splitting off the least-significant digit.
proof fn lemma_lsb_first(d: Seq<u8>)
    requires
        d.len() > 0,
    ensures
        lsb_val(d) == d[0] + 10 * lsb_val(d.skip(1)),
    decreases d.len(),
{
    if d.len() == 1 {
        assert(d.drop_last() =~= Seq::<u8>::empty());
        assert(d.skip(1) =~= Seq::<u8>::empty());
        assert(p10(0) == 1);
        assert(d.last() as nat * 1 == d[0]) by (nonlinear_arith)
            requires
                d.last() == d[0],
        ;
    } else {
        lemma_lsb_first(d.drop_last());
        assert(d.drop_last()[0] == d[0]);
        assert(d.drop_last().skip(1) =~= d.skip(1).drop_last());
        let r = d.skip(1);
        assert(r.last() == d.last());
        assert(lsb_val(r) == lsb_val(r.drop_last()) + d.last() as nat * p10((r.len() - 1) as nat));
        assert(p10((d.len() - 1) as nat) == 10 * p10((r.len() - 1) as nat));
        let x = d.last() as nat;
        let p = p10((r.len() - 1) as nat);
        assert(x * (10 * p) == 10 * (x * p)) by (nonlinear_arith);
    }
}

/// A digit string with a nonzero top digit has a nonzero value.
proof fn lemma_lsb_top(d: Seq<u8>)
    requires
        d.len() > 0,
        d.last() != 0,
    ensures
        lsb_val(d) >= p10((d.len() - 1) as nat),
{
    lemma_p10_pos((d.len() - 1) as nat);
    assert(d.last() as nat * p10((d.len() - 1) as nat) >= 1 * p10((d.len() - 1) as nat))
        by (nonlinear_arith)
        requires
            d.last() >= 1,
            p10((d.len() - 1) as nat) >= 1,
    ;
}

/// The digits of the canonical decimal string fold back to the number.
pub proof fn lemma_roundtrip(n: nat)
    ensures
        digit_vals(dec_str(n)).len() > 0,
        dec_val(digit_vals(dec_str(n))) == n,
        forall|k: int| 0 <= k < dec_str(n).len() ==> is_digit_char(#[trigger] dec_str(n)[k]),
    decreases n,
{
    if n < 10 {
        let s = dec_str(n);
        assert(s =~= seq![((n + 48) as u8) as char]);
        let c = ((n + 48) as u8) as char;
        assert(c as u32 == n + 48);
        assert(is_digit_char(c));
        assert(s.drop_last() =~= Seq::<char>::empty());
        assert(s.last() == c);
        assert(digit_vals(Seq::<char>::empty()) =~= Seq::<u8>::empty());
        assert(digit_vals(s) =~= seq![(c as u32 - 48) as u8]);
        assert(digit_vals(s).drop_last() =~= Seq::<u8>::empty());
        assert(dec_val(Seq::<u8>::empty()) == 0);
        assert((c as u32 - 48) as u8 == n);
        assert(digit_vals(s).last() == (c as u32 - 48) as u8);
        assert(dec_val(digit_vals(s)) == 0 * 10 + n);
    } else {
        lemma_roundtrip(n / 10);
        let s = dec_str(n);
        let c = ((n % 10 + 48) as u8) as char;
        lemma_mod_division_less_than_divisor(n as int, 10);
        assert(c as u32 == n % 10 + 48);
        assert(is_digit_char(c));
        assert(s =~= dec_str(n / 10).push(c));
        assert(s.drop_last() =~= dec_str(n / 10));
        assert(s.last() == c);
        assert(digit_vals(s) =~= digit_vals(dec_str(n / 10)) + seq![(c as u32 - 48) as u8]);
        let u = digit_vals(dec_str(n / 10));
        let w = seq![(c as u32 - 48) as u8];
        assert(digit_vals(s).drop_last() =~= u);
        assert(digit_vals(s).last() == (n % 10) as u8);
        assert(dec_val(digit_vals(s)) == dec_val(u) * 10 + n % 10);
        lemma_fundamental_div_mod(n as int, 10);
        assert(forall|k: int| 0 <= k < s.len() - 1 ==> s[k] == dec_str(n / 10)[k]);
    }
}


proof fn lemma_p10_le(a: nat, b: nat)
    requires
        a <= b,
    ensures
        p10(a) <= p10(b),
    decreases b,
{
    if a < b {
        lemma_p10_le(a, (b - 1) as nat);
        lemma_p10_pos((b - 1) as nat);
    }
}

/// Appending a zero limb does not change a magnitude.
proof fn lemma_push_zero(s: Seq<u64>)
    ensures
        val(s.push(0)) == val(s),
{
    assert(s.push(0).drop_last() =~= s);
    assert(s.push(0).last() == 0);
}

/// A multiple of nineteen that is positive is at least nineteen.
proof fn lemma_chunk_ge(n: int)
    requires
        n > 0,
        n % 19 == 0,
    ensures
        n >= 19,
{
    lemma_fundamental_div_mod(n, 19);
    lemma_div_pos_is_pos(n, 19);
    if n / 19 == 0 {
        assert(false);
    }
    assert(19 * (n / 19) >= 19 * 1) by (nonlinear_arith)
        requires
            n / 19 >= 1,
    ;
}

/// Fold a run of `k` decimal digit values into a single limb.
fn fold_chunk(digs: &Vec<u8>, p: usize, k: usize) -> (acc: u64)
    requires
        p + k <= digs.len(),
        k <= 19,
        forall|i: int| 0 <= i < digs@.len() ==> digs@[i] < 10,
    ensures
        acc == dec_val(digs@.subrange(p as int, p + k)),
        acc < p10(k as nat),
{
    proof {
        lemma_p10_19();
        assert(digs@.subrange(p as int, p as int) =~= Seq::<u8>::empty());
    }
    let mut acc: u64 = 0;
    let mut j: usize = 0;
    while j < k
        invariant
            j <= k <= 19,
            p + k <= digs.len(),
            forall|i: int| 0 <= i < digs@.len() ==> digs@[i] < 10,
            acc == dec_val(digs@.subrange(p as int, p + j)),
            acc < p10(j as nat),
            p10(19) == 10000000000000000000,
        decreases k - j,
    {
        let d = digs[p + j];
        proof {
            lemma_p10_le((j + 1) as nat, 19);
            assert(acc * 10 + d < p10((j + 1) as nat)) by (nonlinear_arith)
                requires
                    acc < p10(j as nat),
                    d < 10,
                    p10((j + 1) as nat) == 10 * p10(j as nat),
            ;
            assert(digs@.subrange(p as int, p + j + 1).drop_last() =~= digs@.subrange(
                p as int,
                p + j,
            ));
            assert(digs@.subrange(p as int, p + j + 1).last() == digs@[p + j]);
        }
        acc = acc * 10 + d as u64;
        j = j + 1;
    }
    acc
}

impl Int {
    /// Parse unsigned decimal text.  ASCII digits build the value;
    /// underscores and spaces are skipped as digit-group separators; any
    /// other character is rejected.  Digits accumulate nineteen at a time
    /// into each limb-sized group, scaling by 10^19 between groups.
    pub fn parse(s: &str) -> (r: Result<Int, IntError>)
        ensures
            r == Result::<Int, IntError>::Err(IntError::InvalidValue) <==> (exists|i: int|
                0 <= i < s@.len() && !is_digit_char(s@[i]) && !is_sep_char(s@[i])),
            r == Result::<Int, IntError>::Err(IntError::EmptyValue) <==> ((forall|i: int|
                0 <= i < s@.len() ==> is_digit_char(s@[i]) || is_sep_char(s@[i]))
                && digit_vals(s@).len() == 0),
            forall|v: Int|
                r == Result::<Int, IntError>::Ok(v) ==> v.wf() && v.sign == Sign::Positive
                    && v.mag() == dec_val(digit_vals(s@)),
    {
        let n = s.unicode_len();
        let mut digs: Vec<u8> = Vec::new();
        let mut i: usize = 0;
        proof {
            assert(digit_vals(s@.take(0)) =~= Seq::<u8>::empty()) by {
                assert(s@.take(0) =~= Seq::<char>::empty());
            }
        }
        while i < n
            invariant
                i <= n == s@.len(),
                forall|j: int| 0 <= j < i ==> is_digit_char(s@[j]) || is_sep_char(s@[j]),
                digs@ == digit_vals(s@.take(i as int)),
                forall|k: int| 0 <= k < digs@.len() ==> digs@[k] < 10,
            decreases n - i,
        {
            let c = s.get_char(i);
            let x = c as u32;
            proof {
                assert(s@.take(i + 1).drop_last() =~= s@.take(i as int));
                assert(s@.take(i + 1).last() == s@[i as int]);
            }
            if 48 <= x && x <= 57 {
                digs.push((x - 48) as u8);
                proof {
                    assert(digs@ =~= digit_vals(s@.take(i + 1)));
                }
            } else if x == 95 || x == 32 {
                proof {
                    assert(digs@ =~= digit_vals(s@.take(i + 1)));
                }
            } else {
                return Err(IntError::InvalidValue);
            }
            i = i + 1;
        }
        proof {
            assert(s@.take(n as int) =~= s@);
        }
        if n == 0 {
            return Err(IntError::EmptyValue);
        }
        let dn = digs.len();
        if dn == 0 {
            return Err(IntError::EmptyValue);
        }
        let r0 = dn % POWER;
        proof {
            if r0 == 0 {
                lemma_chunk_ge(dn as int);
            }
            lemma_p10_19();
        }
        let f = if r0 == 0 {
            POWER
        } else {
            r0
        };
        let acc = fold_chunk(&digs, 0, f);
        let mut out: Vec<u64> = Vec::new();
        out.push(acc);
        proof {
            lemma_win_single(out@, 0);
            assert(out@.subrange(0, 1) =~= out@);
            assert(val(out@) == dec_val(digs@.subrange(0, f as int)));
            assert((dn - f) % 19 == 0) by {
                if r0 != 0 {
                    lemma_mod_sub_multiples_vanish(dn as int, 19);
                    assert(dn - f == dn - dn % 19);
                    lemma_fundamental_div_mod(dn as int, 19);
                    assert((19 * (dn as int / 19)) % 19 == 0) by {
                        lemma_mod_multiples_basic(dn as int / 19, 19);
                    }
                } else {
                    lemma_mod_sub_multiples_vanish((dn - 19) as int, 19);
                }
            }
        }
        let mut p = f;
        while p < dn
            invariant
                f <= p <= dn == digs@.len(),
                (dn - p) % 19 == 0,
                out@.len() >= 1,
                forall|k: int| 0 <= k < digs@.len() ==> digs@[k] < 10,
                val(out@) == dec_val(digs@.subrange(0, p as int)),
                p10(19) == 10000000000000000000,
            decreases dn - p,
        {
            proof {
                lemma_chunk_ge((dn - p) as int);
            }
            if out[out.len() - 1] != 0 {
                let ghost before = out@;
                out.push(0);
                proof {
                    lemma_push_zero(before);
                }
            }
            let l = out.len();
            proof {
                // the top limb is zero, so a scale by the base fits
                assert(out@[l - 1] == 0);
                crate::limbs::lemma_val_prefix(out@, l - 1);
                assert(out@.take(l - 1) =~= out@.subrange(0, l - 1));
                lemma_val_bound(out@.subrange(0, l - 1));
                assert(out@.subrange(0, l as int) =~= out@);
                lemma_pow2_adds(64 * (l - 1) as nat, 64);
                lemma2_to64();
                assert(val(out@) * BASE < pow2(64 * l as nat)) by (nonlinear_arith)
                    requires
                        val(out@) < pow2(64 * (l - 1) as nat),
                        BASE < pow2(64),
                        pow2(64 * (l - 1) as nat) * pow2(64) == pow2(64 * l as nat),
                        pow2(64 * (l - 1) as nat) > 0,
                        pow2(64) > 0,
                ;
            }
            scale_win(&mut out, l, BASE);
            let chunk = fold_chunk(&digs, p, POWER);
            let mut cbuf: Vec<u64> = Vec::new();
            cbuf.push(chunk);
            proof {
                lemma_win_single(cbuf@, 0);
                assert(cbuf@.subrange(0, 1) =~= cbuf@);
                assert(out@.subrange(0, l as int) =~= out@);
                // after the scale there is room for one more group
                lemma_pow2_adds(64 * (l - 1) as nat, 64);
                lemma2_to64();
                assert(win(out@, 0, l as int) + chunk < pow2(64 * l as nat))
                    by (nonlinear_arith)
                    requires
                        win(out@, 0, l as int) == val(out@),
                        val(out@) <= (pow2(64 * (l - 1) as nat) - 1) * BASE,
                        chunk < BASE,
                        BASE < pow2(64),
                        pow2(64 * (l - 1) as nat) * pow2(64) == pow2(64 * l as nat),
                        pow2(64 * (l - 1) as nat) > 0,
                        pow2(64) > 0,
                ;
            }
            let ghost prev = val(out@);
            add_at(&mut out, 0, l, &cbuf, 0, 1);
            proof {
                assert(out@.subrange(0, l as int) =~= out@);
                lemma_dec_val_concat(
                    digs@.subrange(0, p as int),
                    digs@.subrange(p as int, p + POWER),
                );
                assert(digs@.subrange(0, p as int) + digs@.subrange(p as int, p + POWER)
                    =~= digs@.subrange(0, p + POWER));
            }
            p = p + POWER;
            proof {
                lemma_mod_sub_multiples_vanish((dn - p) as int, 19);
            }
        }
        proof {
            assert(digs@.subrange(0, dn as int) =~= digs@);
        }
        Ok(Int::from(out, Sign::Positive).simplify())
    }

    /// Format as decimal text: no leading zeros except the single "0" for
    /// zero, and a leading minus sign exactly when the value is negative.
    pub fn to_decimal_string(&self) -> (r: String)
        requires
            self.wf(),
        ensures
            r@ == (if self.sign == Sign::Negative {
                seq!['-']
            } else {
                Seq::<char>::empty()
            }) + dec_str(self.mag()),
    {
        let mut out = String::new();
        if self.is_zero() {
            crate::strings::push_char_pub(&mut out, '0');
            proof {
                assert(dec_str(0) =~= seq![(48 as u8) as char]);
                assert((48 as u8) as char == '0');
                assert(Seq::<char>::empty().push('0') =~= Seq::<char>::empty() + dec_str(0));
            }
            return out;
        }
        proof {
            lemma_p10_19();
            crate::limbs::lemma_val_lower(self.value@);
            lemma_pow2_pos(64 * (self.value@.len() - 1) as nat);
        }
        let mut digits = crate::bigint::copy_limbs(&self.value);
        let mut dlen = digits.len();
        let mut outd: Vec<u8> = Vec::new();
        proof {
            assert(digits@.subrange(0, dlen as int) =~= digits@);
            assert(p10(0) == 1);
            assert(win(digits@, 0, dlen as int) * 1 == win(digits@, 0, dlen as int))
                by (nonlinear_arith);
        }
        while dlen > 1
            invariant
                1 <= dlen <= digits@.len(),
                trimmed(digits@.subrange(0, dlen as int)),
                win(digits@, 0, dlen as int) >= 1,
                forall|k: int| 0 <= k < outd@.len() ==> outd@[k] < 10,
                self.mag() == win(digits@, 0, dlen as int) * p10(outd@.len()) + lsb_val(outd@),
                p10(19) == 10000000000000000000,
            decreases win(digits@, 0, dlen as int),
        {
            let ghost wcur = win(digits@, 0, dlen as int);
            let ghost dpre = digits@;
            let mut r = div_rem0(&mut digits, dlen, BASE);
            let dlen0 = dlen;
            dlen = trim_win(&digits, 0, dlen);
            proof {
                // the quotient is still positive: the window held at least
                // one full group
                crate::limbs::lemma_val_lower(dpre.subrange(0, dlen0 as int));
                lemma2_to64();
                assert(wcur >= pow2(64)) by {
                    lemma_pow2_le(64, 64 * (dlen0 - 1) as nat);
                }
                assert(wcur / BASE as nat >= 1) by {
                    if wcur / (BASE as nat) == 0 {
                        lemma_fundamental_div_mod(wcur as int, BASE as int);
                        lemma_mod_division_less_than_divisor(wcur as int, BASE as int);
                        assert(BASE as nat * (wcur / (BASE as nat)) == 0) by (nonlinear_arith)
                            requires
                                wcur / (BASE as nat) == 0,
                        ;
                        assert(false);
                    }
                }
                // and strictly smaller than the window it came from
                assert(wcur / (BASE as nat) < wcur) by {
                    lemma_div_decreases(wcur as int, BASE as int);
                }
                assert(win(digits@, 0, dlen as int) >= 1);
                if dlen == 0 {
                    lemma_val_zeros(digits@.subrange(0, 0));
                    assert(false);
                }
            }
            let ghost q = win(digits@, 0, dlen as int);
            let ghost rr = wcur % (BASE as nat);
            let ghost w0 = q * (BASE as nat) + rr;
            proof {
                lemma_fundamental_div_mod(wcur as int, BASE as int);
                assert((BASE as nat) * q == q * (BASE as nat)) by (nonlinear_arith);
                assert(w0 == wcur);
            }
            proof {
                assert(p10(0) == 1);
                lemma_div_basics(rr as int);
                assert(rr / p10(0) == rr);
                assert(wgh(q, rr, 0) == wcur);
            }
            let mut j: usize = 0;
            while j < POWER
                invariant
                    j <= POWER,
                    r == (rr / p10(j as nat)) % p10((19 - j) as nat) || true,
                    q * p10((19 - j) as nat) + r as nat == wgh(q, rr, j as nat),
                    r as nat == rr / p10(j as nat),
                    forall|k: int| 0 <= k < outd@.len() ==> outd@[k] < 10,
                    self.mag() == wgh(q, rr, j as nat) * p10(outd@.len()) + lsb_val(outd@),
                    rr < p10(19),
                    p10(19) == 10000000000000000000,
                decreases POWER - j,
            {
                let d = (r % 10) as u8;
                proof {
                    lemma_step_digit(self.mag(), q, rr, j as nat, outd@, r, d);
                }
                outd.push(d);
                r = r / 10;
                j = j + 1;
            }
            proof {
                lemma_r19_zero(rr);
                assert(wgh(q, rr, 19) == q * 1 + rr / p10(19));
                assert(q * 1 == q) by (nonlinear_arith);
            }
        }
        // the last limb, without leading zeros
        let mut r = digits[0];
        proof {
            lemma_win_single(digits@, 0);
            assert(win(digits@, 0, 1) == digits@[0]);
        }
        while r != 0
            invariant
                forall|k: int| 0 <= k < outd@.len() ==> outd@[k] < 10,
                self.mag() == r as nat * p10(outd@.len()) + lsb_val(outd@),
                r == 0 ==> outd@.len() > 0 && outd@.last() != 0,
                r != 0 || outd@.len() > 0,
                self.mag() >= 1,
            decreases r,
        {
            let d = (r % 10) as u8;
            proof {
                lemma_emit(self.mag(), r as nat, outd@, d);
                if r / 10 == 0 {
                    assert(r < 10);
                    assert(d == r);
                    assert(outd@.push(d).last() == d);
                }
                lemma_div_is_strictly_smaller(r as int, 10);
            }
            outd.push(d);
            r = r / 10;
        }
        proof {
            assert(p10(0) == 1);
            assert(0 * p10(outd@.len()) == 0) by (nonlinear_arith);
            assert(self.mag() == lsb_val(outd@));
            lemma_lsb_decstr(outd@);
        }
        if matches!(self.sign, Sign::Negative) {
            crate::strings::push_char_pub(&mut out, '-');
        }
        let ghost pre = out@;
        let total = outd.len();
        let mut k: usize = total;
        while k > 0
            invariant
                k <= total == outd@.len(),
                forall|t: int| 0 <= t < outd@.len() ==> outd@[t] < 10,
                dec_str(self.mag()) =~= Seq::new(
                    outd@.len(),
                    |j: int| ((outd@[outd@.len() - 1 - j] + 48) as u8) as char,
                ),
                out@ == pre + dec_str(self.mag()).take(total - k),
            decreases k,
        {
            k = k - 1;
            let c = (outd[k] + 48) as u8;
            crate::strings::push_char_pub(&mut out, c as char);
            proof {
                assert(out@ =~= pre + dec_str(self.mag()).take(total - k));
            }
        }
        proof {
            assert(dec_str(self.mag()).take(total as int) =~= dec_str(self.mag()));
            if self.sign == Sign::Negative {
                assert(pre =~= seq!['-']);
            } else {
                assert(pre =~= Seq::<char>::empty());
            }
        }
        out
    }
}

/// The value still to be emitted after `j` digits of the current group.
pub(crate) open spec fn wgh(q: nat, rr: nat, j: nat) -> nat {
    q * p10((19 - j) as nat) + rr / p10(j)
}

/// Emitting one digit of the current group.
proof fn lemma_step_digit(m: nat, q: nat, rr: nat, j: nat, outd: Seq<u8>, r: u64, d: u8)
    requires
        j < 19,
        m == wgh(q, rr, j) * p10(outd.len()) + lsb_val(outd),
        r as nat == rr / p10(j),
        d == r % 10,
        rr < p10(19),
    ensures
        m == wgh(q, rr, j + 1) * p10(outd.len() + 1) + lsb_val(outd.push(d)),
        (r / 10) as nat == rr / p10((j + 1) as nat),
        d < 10,
    decreases 0int,
{
    let w = wgh(q, rr, j);
    // d is the low digit of w, because q's share is a multiple of ten
    lemma_p10_pos(j);
    lemma_p10_pos((19 - j - 1) as nat);
    assert(p10((19 - j) as nat) == 10 * p10((19 - j - 1) as nat));
    assert(w % 10 == (rr / p10(j)) % 10) by {
        let t = q * p10((19 - j - 1) as nat);
        assert(q * (10 * p10((19 - j - 1) as nat)) == 10 * t) by (nonlinear_arith)
            requires
                t == q * p10((19 - j - 1) as nat),
        ;
        lemma_mod_multiples_vanish(t as int, (rr / p10(j)) as int, 10);
        assert(t * 10 + (rr / p10(j)) as int == 10 * t + (rr / p10(j)) as int)
            by (nonlinear_arith);
    }
    lemma_emit(m, w, outd, d);
    // the next residue drops one more factor of ten
    assert((r / 10) as nat == rr / p10((j + 1) as nat)) by {
        lemma_div_denominator(rr as int, p10(j) as int, 10);
        assert(p10(j) * 10 == 10 * p10(j)) by (nonlinear_arith);
        assert(p10((j + 1) as nat) == 10 * p10(j));
    }
    // and q's share carries over
    assert(w / 10 == wgh(q, rr, j + 1)) by {
        let t = q * p10((19 - j - 1) as nat);
        assert(q * (10 * p10((19 - j - 1) as nat)) == t * 10) by (nonlinear_arith)
            requires
                t == q * p10((19 - j - 1) as nat),
        ;
        lemma_hoist_over_denominator((rr / p10(j)) as int, t as int, 10);
        assert((rr / p10(j)) / 10 == rr / p10((j + 1) as nat)) by {
            lemma_div_denominator(rr as int, p10(j) as int, 10);
            assert(p10(j) * 10 == 10 * p10(j)) by (nonlinear_arith);
            assert(p10((j + 1) as nat) == 10 * p10(j));
        }
    }
}

/// After nineteen digits the group's residue is exhausted.
proof fn lemma_r19_zero(rr: nat)
    requires
        rr < p10(19),
    ensures
        rr / p10(19) == 0,
{
    lemma_p10_pos(19);
    lemma_basic_div(rr as int, p10(19) as int);
}

proof fn lemma_pow2_le(a: nat, b: nat)
    requires
        a <= b,
    ensures
        pow2(a) <= pow2(b),
{
    if a < b {
        lemma_pow2_strictly_increases(a, b);
    }
}

} // verus!

