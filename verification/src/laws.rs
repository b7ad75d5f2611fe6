//! Algebraic laws of the big integer engine, stated over the same spec
//! functions that the arithmetic contracts use.  Each law reduces to
//! integer arithmetic plus the uniqueness of the canonical representation,
//! so any two well-formed results with the same value are identical limb
//! for limb.

use vstd::prelude::*;
use crate::limbs::{lemma_trimmed_unique, lemma_val_lower, lemma_val_zeros, val};
use crate::bigint::{Int, Sign, tdiv, tmod};
use crate::decimal::{dec_str, dec_val, digit_vals, is_digit_char};
use vstd::arithmetic::power2::*;

verus! {

/// Canonical uniqueness: two well-formed integers with the same value are
/// identical, limb for limb and in sign.  In particular the result of any
/// arithmetic operation is independent of the code path that produced it,
/// which is what makes the long and Karatsuba multiplication paths
/// interchangeable.
pub proof fn lemma_wf_unique(x: Int, y: Int)
    requires
        x.wf(),
        y.wf(),
        x.as_int() == y.as_int(),
    ensures
        x.value@ == y.value@,
        x.sign == y.sign,
{
    if x.value@.len() > 0 {
        lemma_val_lower(x.value@);
        lemma_pow2_pos(64 * (x.value@.len() - 1) as nat);
    }
    if y.value@.len() > 0 {
        lemma_val_lower(y.value@);
        lemma_pow2_pos(64 * (y.value@.len() - 1) as nat);
    }
    assert(x.mag() == y.mag());
    lemma_trimmed_unique(x.value@, y.value@);
    if x.value@.len() == 0 {
        lemma_val_zeros(x.value@);
    }
}

/// Addition commutes: the results of `a.add(b)` and `b.add(a)` are
/// identical.
pub proof fn lemma_add_comm(a: Int, b: Int, r1: Int, r2: Int)
    requires
        a.wf(),
        b.wf(),
        r1.wf(),
        r2.wf(),
        r1.as_int() == a.as_int() + b.as_int(),
        r2.as_int() == b.as_int() + a.as_int(),
    ensures
        r1.value@ == r2.value@,
        r1.sign == r2.sign,
{
    lemma_wf_unique(r1, r2);
}

/// Multiplication commutes: the results of `a.mul(b)` and `b.mul(a)` are
/// identical.
pub proof fn lemma_mul_comm(a: Int, b: Int, r1: Int, r2: Int)
    requires
        a.wf(),
        b.wf(),
        r1.wf(),
        r2.wf(),
        r1.as_int() == a.as_int() * b.as_int(),
        r2.as_int() == b.as_int() * a.as_int(),
    ensures
        r1.value@ == r2.value@,
        r1.sign == r2.sign,
{
    vstd::arithmetic::mul::lemma_mul_is_commutative(a.as_int(), b.as_int());
    lemma_wf_unique(r1, r2);
}

/// Adding zero returns the operand unchanged.
pub proof fn lemma_add_identity(a: Int, z: Int, r: Int)
    requires
        a.wf(),
        z.wf(),
        z.as_int() == 0,
        r.wf(),
        r.as_int() == a.as_int() + z.as_int(),
    ensures
        r.value@ == a.value@,
        r.sign == a.sign,
{
    lemma_wf_unique(r, a);
}

/// Adding the negation of a value gives zero.
pub proof fn lemma_add_inverse(a: Int, n: Int, r: Int)
    requires
        a.wf(),
        n.wf(),
        n.as_int() == -a.as_int(),
        r.wf(),
        r.as_int() == a.as_int() + n.as_int(),
    ensures
        r.value@ == Seq::<u64>::empty(),
        r.sign == Sign::Positive,
        r.as_int() == 0,
{
    if r.value@.len() > 0 {
        lemma_val_lower(r.value@);
        lemma_pow2_pos(64 * (r.value@.len() - 1) as nat);
    }
    assert(r.value@ =~= Seq::<u64>::empty()) by {
        if r.value@.len() > 0 {
            assert(false);
        }
    }
}

/// Multiplying by one returns the operand unchanged.
pub proof fn lemma_mul_identity(a: Int, o: Int, r: Int)
    requires
        a.wf(),
        o.wf(),
        o.as_int() == 1,
        r.wf(),
        r.as_int() == a.as_int() * o.as_int(),
    ensures
        r.value@ == a.value@,
        r.sign == a.sign,
{
    assert(a.as_int() * 1 == a.as_int()) by (nonlinear_arith);
    lemma_wf_unique(r, a);
}

/// Multiplying by zero gives zero.
pub proof fn lemma_mul_annihilator(a: Int, z: Int, r: Int)
    requires
        a.wf(),
        z.wf(),
        z.as_int() == 0,
        r.wf(),
        r.as_int() == a.as_int() * z.as_int(),
    ensures
        r.value@ == Seq::<u64>::empty(),
        r.sign == Sign::Positive,
        r.as_int() == 0,
{
    assert(a.as_int() * 0 == 0) by (nonlinear_arith);
    if r.value@.len() > 0 {
        lemma_val_lower(r.value@);
        lemma_pow2_pos(64 * (r.value@.len() - 1) as nat);
    }
    assert(r.value@ =~= Seq::<u64>::empty());
}


/// Path independence of multiplication: schoolbook long multiplication
/// and the Karatsuba recursion past the sixteen-limb threshold are both
/// verified against the same product contract, so any two well-formed
/// results for the same operands are identical limb for limb, whichever
/// path produced them.
pub proof fn lemma_mul_paths_agree(a: Int, b: Int, r1: Int, r2: Int)
    requires
        a.wf(),
        b.wf(),
        r1.wf(),
        r2.wf(),
        r1.as_int() == a.as_int() * b.as_int(),
        r2.as_int() == a.as_int() * b.as_int(),
    ensures
        r1.value@ == r2.value@,
        r1.sign == r2.sign,
{
    lemma_wf_unique(r1, r2);
}

/// The division-remainder identity: for a nonzero divisor,
/// `div(a,b) * b + rem(a,b) == a`, with the contracts' truncating
/// quotient and dividend-signed remainder.
pub proof fn lemma_divrem_identity(a: Int, b: Int, q: Int, m: Int, p: Int, s: Int)
    requires
        a.wf(),
        b.wf(),
        b.value@.len() > 0,
        q.wf(),
        q.as_int() == tdiv(a.as_int(), b.as_int()),
        m.wf(),
        m.as_int() == tmod(a.as_int(), b.as_int()),
        p.wf(),
        p.as_int() == q.as_int() * b.as_int(),
        s.wf(),
        s.as_int() == p.as_int() + m.as_int(),
    ensures
        s.value@ == a.value@,
        s.sign == a.sign,
{
    assert(q.as_int() * b.as_int() == b.as_int() * q.as_int()) by (nonlinear_arith);
    assert(s.as_int() == a.as_int());
    lemma_wf_unique(s, a);
}

/// Round-trip of decimal formatting and parsing, at the specification
/// level: the decimal string of a non-negative value holds only digit
/// characters, and its digits fold back to the same magnitude; by
/// canonical uniqueness the parsed integer is the original one.
pub proof fn lemma_decimal_roundtrip(x: Int)
    requires
        x.wf(),
        x.as_int() >= 0,
    ensures
        forall|k: int|
            0 <= k < dec_str(x.mag()).len() ==> is_digit_char(#[trigger] dec_str(x.mag())[k]),
        digit_vals(dec_str(x.mag())).len() > 0,
        dec_val(digit_vals(dec_str(x.mag()))) == x.mag(),
        forall|v: Int|
            v.wf() && v.sign == Sign::Positive && v.mag() == x.mag() ==> v.value@ == x.value@
                && v.sign == x.sign,
{
    crate::decimal::lemma_roundtrip(x.mag());
    assert forall|v: Int|
        v.wf() && v.sign == Sign::Positive && v.mag() == x.mag() implies v.value@ == x.value@
        && v.sign == x.sign by {
        if x.value@.len() > 0 {
            lemma_val_lower(x.value@);
            lemma_pow2_pos(64 * (x.value@.len() - 1) as nat);
        }
        lemma_wf_unique(v, x);
    }
}

} // verus!
