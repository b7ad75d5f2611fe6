//! The arbitrary-precision signed integer type: a magnitude (sequence of
//! 64-bit limbs, least-significant first, no trailing zero limbs) paired
//! with a sign.  Zero is the empty magnitude and is always tagged positive.

use vstd::prelude::*;
use vstd::arithmetic::power2::*;
use core::cmp::Ordering;
use crate::limbs::{
    add_to, cmp_win, lemma_mul_fits, lemma_trimmed_unique, lemma_val_bound, lemma_val_lower,
    lemma_val_zeros, lemma_win_single, sub_to, trim_win, trimmed, val, zeros, zeros2,
};
use crate::mul::mul_at;
use crate::divmod::div_rem;

verus! {

/// The sign of an integer; zero is by convention `Positive`.
#[derive(Debug, Clone, Copy, PartialEq, Eq, Structural)]
pub enum Sign {
    Positive,
    Negative,
}

impl Sign {
    /// Logical NOT: the opposite sign.
    pub fn flip(self) -> (r: Sign)
        ensures
            r == (if self == Sign::Positive {
                Sign::Negative
            } else {
                Sign::Positive
            }),
    {
        match self {
            Sign::Positive => Sign::Negative,
            Sign::Negative => Sign::Positive,
        }
    }

    /// XOR: the sign of a product or quotient of two signed values.
    pub fn xor(self, other: Sign) -> (r: Sign)
        ensures
            r == (if self == other {
                Sign::Positive
            } else {
                Sign::Negative
            }),
    {
        match (self, other) {
            (Sign::Positive, Sign::Positive) => Sign::Positive,
            (Sign::Positive, Sign::Negative) => Sign::Negative,
            (Sign::Negative, Sign::Positive) => Sign::Negative,
            (Sign::Negative, Sign::Negative) => Sign::Positive,
        }
    }
}

/// Parsing errors: the input was empty, or held a byte that is neither an
/// ASCII digit nor a `_` or space separator.
#[derive(Debug, Clone, PartialEq, Eq, Structural)]
pub enum IntError {
    EmptyValue,
    InvalidValue,
}

/// An arbitrary-precision signed integer.
#[derive(Debug)]
pub struct Int {
    pub value: Vec<u64>,
    pub sign: Sign,
}

impl Int {
    /// The magnitude as an unbounded natural number.
    pub open spec fn mag(self) -> nat {
        val(self.value@)
    }

    /// The signed value this `Int` stands for.
    pub open spec fn as_int(self) -> int {
        if self.sign == Sign::Negative {
            -(self.mag() as int)
        } else {
            self.mag() as int
        }
    }

    /// Canonical form: no trailing zero limb, and zero is positive.
    pub open spec fn wf(self) -> bool {
        &&& trimmed(self.value@)
        &&& (self.value@.len() == 0 ==> self.sign == Sign::Positive)
    }

    /// Number of limbs in the magnitude.
    pub fn len(&self) -> (r: usize)
        ensures
            r == self.value@.len(),
    {
        self.value.len()
    }

    pub fn is_empty(&self) -> (r: bool)
        ensures
            r == (self.value@.len() == 0),
    {
        self.value.len() == 0
    }

    /// The canonical zero: empty magnitude, positive sign.
    pub fn zero() -> (r: Int)
        ensures
            r.wf(),
            r.as_int() == 0,
            r.value@.len() == 0,
            r.sign == Sign::Positive,
    {
        Int { value: Vec::new(), sign: Sign::Positive }
    }

    /// The canonical one: the single limb `[1]`, positive sign.
    pub fn one() -> (r: Int)
        ensures
            r.wf(),
            r.as_int() == 1,
    {
        let mut v: Vec<u64> = Vec::new();
        v.push(1);
        proof {
            lemma_win_single(v@, 0);
            assert(v@.subrange(0, 1) =~= v@);
        }
        Int { value: v, sign: Sign::Positive }
    }

    /// Raw constructor from limbs and a sign; performs no trimming.
    pub fn from(value: Vec<u64>, sign: Sign) -> (r: Int)
        ensures
            r.value == value,
            r.sign == sign,
    {
        Int { value, sign }
    }

    pub fn is_zero(&self) -> (r: bool)
        ensures
            r == (self.value@.len() == 0),
            self.wf() ==> (r <==> self.as_int() == 0),
    {
        proof {
            if self.value@.len() > 0 && trimmed(self.value@) {
                lemma_val_lower(self.value@);
                lemma_pow2_pos(64 * (self.value@.len() - 1) as nat);
            }
        }
        self.is_empty()
    }

    pub fn is_one(&self) -> (r: bool)
        ensures
            r == (self.value@.len() == 1 && self.value@[0] == 1),
            r ==> self.mag() == 1,
            self.wf() && self.mag() == 1 ==> r,
    {
        proof {
            if self.value@.len() == 1 {
                lemma_win_single(self.value@, 0);
                assert(self.value@.subrange(0, 1) =~= self.value@);
            }
            if self.wf() && self.mag() == 1 {
                let s = seq![1u64];
                lemma_win_single(s, 0);
                assert(s.subrange(0, 1) =~= s);
                lemma_trimmed_unique(self.value@, s);
            }
        }
        self.value.len() == 1 && self.value[0] == 1
    }

    /// Parity of the least-significant limb; the magnitude must not be
    /// empty (the caller's responsibility, as for the modulo-zero case).
    pub fn is_even(&self) -> (r: bool)
        requires
            self.value@.len() > 0,
        ensures
            r == (self.mag() % 2 == 0),
    {
        proof {
            lemma_mag_parity(self.value@);
        }
        self.value[0] % 2 == 0
    }

    pub fn is_odd(&self) -> (r: bool)
        requires
            self.value@.len() > 0,
        ensures
            r == (self.mag() % 2 == 1),
    {
        proof {
            lemma_mag_parity(self.value@);
        }
        self.value[0] % 2 == 1
    }

    /// Zero counts as non-negative and as non-positive alike.
    pub fn is_positive(&self) -> (r: bool)
        ensures
            r == (self.sign == Sign::Positive || self.value@.len() == 0),
            self.wf() ==> (r <==> self.as_int() >= 0),
    {
        proof {
            if self.value@.len() > 0 && trimmed(self.value@) {
                lemma_val_lower(self.value@);
                lemma_pow2_pos(64 * (self.value@.len() - 1) as nat);
            }
        }
        match self.sign {
            Sign::Positive => true,
            Sign::Negative => self.is_empty(),
        }
    }

    pub fn is_negative(&self) -> (r: bool)
        ensures
            r == (self.sign == Sign::Negative || self.value@.len() == 0),
            self.wf() ==> (r <==> self.as_int() <= 0),
    {
        proof {
            if self.value@.len() > 0 && trimmed(self.value@) {
                lemma_val_lower(self.value@);
                lemma_pow2_pos(64 * (self.value@.len() - 1) as nat);
            }
        }
        match self.sign {
            Sign::Negative => true,
            Sign::Positive => self.is_empty(),
        }
    }

    /// A copy of the magnitude with the sign forced positive.
    pub fn abs(&self) -> (r: Int)
        ensures
            r.value@ == self.value@,
            r.sign == Sign::Positive,
            self.wf() ==> r.wf() && r.as_int() == abs_int(self.as_int()),
    {
        Int { value: copy_limbs(&self.value), sign: Sign::Positive }
    }

    /// The opposite value: flips the sign, except that zero stays
    /// positive so the canonical form is kept.
    pub fn negate(&self) -> (r: Int)
        ensures
            r.value@ == self.value@,
            self.wf() ==> r.wf() && r.as_int() == -self.as_int(),
    {
        let v = copy_limbs(&self.value);
        if self.is_empty() {
            Int { value: v, sign: Sign::Positive }
        } else {
            Int { value: v, sign: self.sign.flip() }
        }
    }

    /// Restore the canonical form: drop trailing zero limbs, and force the
    /// sign positive when the magnitude is zero.
    pub fn simplify(self) -> (r: Int)
        ensures
            r.wf(),
            r.mag() == self.mag(),
            r.value@.len() > 0 ==> r.sign == self.sign,
            r.as_int() == (if self.sign == Sign::Negative {
                -(self.mag() as int)
            } else {
                self.mag() as int
            }),
            self.wf() ==> r.as_int() == self.as_int(),
    {
        let mut v = self.value;
        let n = v.len();
        let t = trim_win(&v, 0, n);
        let ghost v0 = v@;
        v.truncate(t);
        proof {
            assert(v0.subrange(0, n as int) =~= v0);
            assert(v@ == v0.subrange(0, t as int));
        }
        let sign = if v.len() == 0 {
            Sign::Positive
        } else {
            self.sign
        };
        proof {
            if v@.len() == 0 {
                assert(val(v@) == 0) by {
                    lemma_val_zeros(v@);
                }
            }
        }
        Int { value: v, sign }
    }

    /// Magnitude-only total order: by limb count first, then from the
    /// most-significant limb down.  Equality of signed values is the
    /// separate `eq` below; this comparison deliberately ignores the sign.
    pub fn cmp(&self, other: &Int) -> (r: Ordering)
        requires
            self.wf(),
            other.wf(),
        ensures
            r == Ordering::Equal <==> self.mag() == other.mag(),
            r == Ordering::Less <==> self.mag() < other.mag(),
            r == Ordering::Greater <==> self.mag() > other.mag(),
    {
        proof {
            assert(self.value@.subrange(0, self.value@.len() as int) =~= self.value@);
            assert(other.value@.subrange(0, other.value@.len() as int) =~= other.value@);
            if self.value@.len() < other.value@.len() {
                lemma_trimmed_lt_pub(self.value@, other.value@);
            }
            if other.value@.len() < self.value@.len() {
                lemma_trimmed_lt_pub(other.value@, self.value@);
            }
        }
        cmp_win(&self.value, 0, self.value.len(), &other.value, 0, other.value.len())
    }
}

/// Absolute value over mathematical integers.
pub open spec fn abs_int(x: int) -> int {
    if x < 0 {
        -x
    } else {
        x
    }
}

/// A trimmed shorter magnitude is smaller.
pub proof fn lemma_trimmed_lt_pub(s1: Seq<u64>, s2: Seq<u64>)
    requires
        trimmed(s1),
        trimmed(s2),
        s1.len() < s2.len(),
    ensures
        val(s1) < val(s2),
{
    lemma_val_bound(s1);
    lemma_val_lower(s2);
    if s1.len() < s2.len() - 1 {
        lemma_pow2_strictly_increases(64 * s1.len(), 64 * (s2.len() - 1) as nat);
    }
}

/// The magnitude's parity is the parity of its low limb.
proof fn lemma_mag_parity(s: Seq<u64>)
    requires
        s.len() > 0,
    ensures
        val(s) % 2 == s[0] % 2,
{
    crate::limbs::lemma_val_split(s, 1);
    assert(s.take(1) =~= seq![s[0]]);
    assert(val(seq![s[0]]) == s[0]) by {
        lemma_win_single(seq![s[0]], 0);
        assert(seq![s[0]].subrange(0, 1) =~= seq![s[0]]);
    }
    lemma2_to64();
    let rest = val(s.skip(1));
    assert(val(s) == s[0] + rest * pow2(64));
    assert((s[0] + rest * pow2(64)) % 2 == s[0] % 2) by (nonlinear_arith)
        requires
            pow2(64) == 0x10000000000000000,
    ;
}

/// An element-wise copy of a limb vector.
pub(crate) fn copy_limbs(v: &Vec<u64>) -> (r: Vec<u64>)
    ensures
        r@ == v@,
{
    let mut r: Vec<u64> = Vec::new();
    let mut i: usize = 0;
    while i < v.len()
        invariant
            i <= v.len(),
            r@ == v@.subrange(0, i as int),
        decreases v.len() - i,
    {
        r.push(v[i]);
        proof {
            assert(r@ =~= v@.subrange(0, i + 1));
        }
        i = i + 1;
    }
    proof {
        assert(v@.subrange(0, v@.len() as int) =~= v@);
    }
    r
}

impl Clone for Int {
    /// An independent copy of the same value.
    fn clone(&self) -> (r: Int)
        ensures
            r.value@ == self.value@,
            r.sign == self.sign,
    {
        Int { value: copy_limbs(&self.value), sign: self.sign }
    }
}

impl PartialEq for Int {
    /// Value equality: both the magnitude limbs and the sign must match.
    fn eq(&self, other: &Int) -> (r: bool) {
        if self.value.len() != other.value.len() {
            return false;
        }
        if !(self.sign == other.sign) {
            return false;
        }
        let mut i: usize = 0;
        while i < self.value.len()
            invariant
                i <= self.value@.len() == other.value@.len(),
                forall|k: int| 0 <= k < i ==> self.value@[k] == other.value@[k],
            decreases self.value@.len() - i,
        {
            if self.value[i] != other.value[i] {
                return false;
            }
            i = i + 1;
        }
        proof {
            assert(self.value@ =~= other.value@);
        }
        true
    }
}

impl Eq for Int {

}

impl vstd::std_specs::cmp::PartialEqSpecImpl for Int {
    open spec fn obeys_eq_spec() -> bool {
        true
    }

    open spec fn eq_spec(&self, other: &Int) -> bool {
        self.value@ == other.value@ && self.sign == other.sign
    }
}


/// Truncating division of mathematical integers: the quotient rounds
/// toward zero, so its sign is the XOR of the operand signs.
pub open spec fn tdiv(a: int, b: int) -> int {
    if (a >= 0) == (b >= 0) {
        abs_int(a) / abs_int(b)
    } else {
        -(abs_int(a) / abs_int(b))
    }
}

/// The remainder matching `tdiv`: it takes the dividend's sign.
pub open spec fn tmod(a: int, b: int) -> int {
    a - b * tdiv(a, b)
}

/// The factorial of a non-negative integer.
pub open spec fn fact_int(n: int) -> int
    decreases n,
{
    if n <= 1 {
        1
    } else {
        n * fact_int(n - 1)
    }
}

/// A nonzero canonical magnitude is at least one.
proof fn lemma_mag_pos(s: Seq<u64>)
    requires
        trimmed(s),
        s.len() > 0,
    ensures
        val(s) >= 1,
{
    lemma_val_lower(s);
    lemma_pow2_pos(64 * (s.len() - 1) as nat);
}

/// Appending a zero limb does not change the value.
proof fn lemma_val_push_zero(s: Seq<u64>)
    ensures
        val(s.push(0)) == val(s),
{
    assert(s.push(0).drop_last() =~= s);
    assert(s.push(0).last() == 0);
}

impl Int {
    /// Signed addition.  Equal signs add magnitudes and keep the sign;
    /// opposite signs subtract the smaller magnitude from the larger, the
    /// result taking the sign of the larger operand.
    pub fn add(&self, other: &Int) -> (r: Int)
        requires
            self.wf(),
            other.wf(),
        ensures
            r.wf(),
            r.as_int() == self.as_int() + other.as_int(),
    {
        if self.is_zero() {
            return other.clone();
        }
        if other.is_zero() {
            return self.clone();
        }
        proof {
            lemma_mag_pos(self.value@);
            lemma_mag_pos(other.value@);
        }
        if self.sign == other.sign {
            let mut out = if self.value.len() >= other.value.len() {
                let mut out = zeros2(self.value.len(), 1);
                add_to(
                    &mut out,
                    0,
                    &self.value,
                    0,
                    self.value.len(),
                    &other.value,
                    0,
                    other.value.len(),
                );
                out
            } else {
                let mut out = zeros2(other.value.len(), 1);
                add_to(
                    &mut out,
                    0,
                    &other.value,
                    0,
                    other.value.len(),
                    &self.value,
                    0,
                    self.value.len(),
                );
                out
            };
            proof {
                assert(out@.subrange(0, out@.len() as int) =~= out@);
                assert(self.value@.subrange(0, self.value@.len() as int) =~= self.value@);
                assert(other.value@.subrange(0, other.value@.len() as int) =~= other.value@);
            }
            Int::from(out, self.sign).simplify()
        } else {
            match self.cmp(other) {
                Ordering::Greater => {
                    proof {
                        if self.value@.len() < other.value@.len() {
                            lemma_trimmed_lt_pub(self.value@, other.value@);
                        }
                        assert(self.value@.subrange(0, self.value@.len() as int)
                            =~= self.value@);
                        assert(other.value@.subrange(0, other.value@.len() as int)
                            =~= other.value@);
                    }
                    let mut out = zeros(self.value.len());
                    sub_to(
                        &mut out,
                        0,
                        &self.value,
                        0,
                        self.value.len(),
                        &other.value,
                        0,
                        other.value.len(),
                    );
                    proof {
                        assert(out@.subrange(0, out@.len() as int) =~= out@);
                        assert(self.value@.subrange(0, self.value@.len() as int)
                            =~= self.value@);
                        assert(other.value@.subrange(0, other.value@.len() as int)
                            =~= other.value@);
                    }
                    Int::from(out, self.sign).simplify()
                },
                Ordering::Less => {
                    proof {
                        if other.value@.len() < self.value@.len() {
                            lemma_trimmed_lt_pub(other.value@, self.value@);
                        }
                        assert(self.value@.subrange(0, self.value@.len() as int)
                            =~= self.value@);
                        assert(other.value@.subrange(0, other.value@.len() as int)
                            =~= other.value@);
                    }
                    let mut out = zeros(other.value.len());
                    sub_to(
                        &mut out,
                        0,
                        &other.value,
                        0,
                        other.value.len(),
                        &self.value,
                        0,
                        self.value.len(),
                    );
                    proof {
                        assert(out@.subrange(0, out@.len() as int) =~= out@);
                        assert(self.value@.subrange(0, self.value@.len() as int)
                            =~= self.value@);
                        assert(other.value@.subrange(0, other.value@.len() as int)
                            =~= other.value@);
                    }
                    Int::from(out, other.sign).simplify()
                },
                Ordering::Equal => Int::zero(),
            }
        }
    }

    /// Signed subtraction: `self - other`.
    pub fn sub(&self, other: &Int) -> (r: Int)
        requires
            self.wf(),
            other.wf(),
        ensures
            r.wf(),
            r.as_int() == self.as_int() - other.as_int(),
    {
        if self.is_zero() {
            return other.negate();
        }
        if other.is_zero() {
            return self.clone();
        }
        proof {
            lemma_mag_pos(self.value@);
            lemma_mag_pos(other.value@);
        }
        if !(self.sign == other.sign) {
            let mut out = if self.value.len() >= other.value.len() {
                let mut out = zeros2(self.value.len(), 1);
                add_to(
                    &mut out,
                    0,
                    &self.value,
                    0,
                    self.value.len(),
                    &other.value,
                    0,
                    other.value.len(),
                );
                out
            } else {
                let mut out = zeros2(other.value.len(), 1);
                add_to(
                    &mut out,
                    0,
                    &other.value,
                    0,
                    other.value.len(),
                    &self.value,
                    0,
                    self.value.len(),
                );
                out
            };
            proof {
                assert(out@.subrange(0, out@.len() as int) =~= out@);
                assert(self.value@.subrange(0, self.value@.len() as int) =~= self.value@);
                assert(other.value@.subrange(0, other.value@.len() as int) =~= other.value@);
            }
            Int::from(out, self.sign).simplify()
        } else {
            match self.cmp(other) {
                Ordering::Greater => {
                    proof {
                        if self.value@.len() < other.value@.len() {
                            lemma_trimmed_lt_pub(self.value@, other.value@);
                        }
                        assert(self.value@.subrange(0, self.value@.len() as int)
                            =~= self.value@);
                        assert(other.value@.subrange(0, other.value@.len() as int)
                            =~= other.value@);
                    }
                    let mut out = zeros(self.value.len());
                    sub_to(
                        &mut out,
                        0,
                        &self.value,
                        0,
                        self.value.len(),
                        &other.value,
                        0,
                        other.value.len(),
                    );
                    proof {
                        assert(out@.subrange(0, out@.len() as int) =~= out@);
                        assert(self.value@.subrange(0, self.value@.len() as int)
                            =~= self.value@);
                        assert(other.value@.subrange(0, other.value@.len() as int)
                            =~= other.value@);
                    }
                    Int::from(out, self.sign).simplify()
                },
                Ordering::Less => {
                    proof {
                        if other.value@.len() < self.value@.len() {
                            lemma_trimmed_lt_pub(other.value@, self.value@);
                        }
                        assert(self.value@.subrange(0, self.value@.len() as int)
                            =~= self.value@);
                        assert(other.value@.subrange(0, other.value@.len() as int)
                            =~= other.value@);
                    }
                    let mut out = zeros(other.value.len());
                    sub_to(
                        &mut out,
                        0,
                        &other.value,
                        0,
                        other.value.len(),
                        &self.value,
                        0,
                        self.value.len(),
                    );
                    proof {
                        assert(out@.subrange(0, out@.len() as int) =~= out@);
                        assert(self.value@.subrange(0, self.value@.len() as int)
                            =~= self.value@);
                        assert(other.value@.subrange(0, other.value@.len() as int)
                            =~= other.value@);
                    }
                    Int::from(out, self.sign.flip()).simplify()
                },
                Ordering::Equal => Int::zero(),
            }
        }
    }

    /// Signed multiplication.  Zero short-circuits; a magnitude of one
    /// only copies the other operand's magnitude; otherwise the longer
    /// magnitude is handed first to the multiplication entry point.  The
    /// result sign is the XOR of the operand signs.
    pub fn mul(&self, other: &Int) -> (r: Int)
        requires
            self.wf(),
            other.wf(),
        ensures
            r.wf(),
            r.as_int() == self.as_int() * other.as_int(),
    {
        proof {
            lemma_mul_signs(self.as_int(), other.as_int());
        }
        if self.is_zero() || other.is_zero() {
            return Int::zero();
        }
        proof {
            lemma_mag_pos(self.value@);
            lemma_mag_pos(other.value@);
        }
        if self.is_one() {
            proof {
                assert(abs_int(self.as_int()) == 1);
                assert(abs_int(other.as_int()) == other.mag());
                assert(abs_int(self.as_int()) * abs_int(other.as_int()) == other.mag())
                    by (nonlinear_arith)
                    requires
                        abs_int(self.as_int()) == 1,
                        abs_int(other.as_int()) == other.mag(),
                ;
            }
            return Int::from(copy_limbs(&other.value), self.sign.xor(other.sign));
        }
        if other.is_one() {
            proof {
                assert(abs_int(other.as_int()) == 1);
                assert(abs_int(self.as_int()) == self.mag());
                assert(abs_int(self.as_int()) * abs_int(other.as_int()) == self.mag())
                    by (nonlinear_arith)
                    requires
                        abs_int(other.as_int()) == 1,
                        abs_int(self.as_int()) == self.mag(),
                ;
            }
            return Int::from(copy_limbs(&self.value), self.sign.xor(other.sign));
        }
        let mut out = zeros2(self.value.len(), other.value.len());
        let olen = out.len();
        proof {
            assert(out@.subrange(0, olen as int) =~= out@);
            lemma_val_zeros(out@);
            lemma_val_bound(self.value@.subrange(0, self.value@.len() as int));
            lemma_val_bound(other.value@.subrange(0, other.value@.len() as int));
            assert(self.value@.subrange(0, self.value@.len() as int) =~= self.value@);
            assert(other.value@.subrange(0, other.value@.len() as int) =~= other.value@);
            lemma_mul_fits(
                self.mag(),
                other.mag(),
                self.value@.len(),
                other.value@.len(),
            );
        }
        if self.value.len() >= other.value.len() {
            mul_at(
                &self.value,
                0,
                self.value.len(),
                &other.value,
                0,
                other.value.len(),
                &mut out,
                0,
                olen,
            );
        } else {
            proof {
                vstd::arithmetic::mul::lemma_mul_is_commutative(
                    self.mag() as int,
                    other.mag() as int,
                );
            }
            mul_at(
                &other.value,
                0,
                other.value.len(),
                &self.value,
                0,
                self.value.len(),
                &mut out,
                0,
                olen,
            );
        }
        proof {
            assert(out@.subrange(0, out@.len() as int) =~= out@);
            assert(self.mag() * other.mag() >= 1 * 1) by (nonlinear_arith)
                requires
                    self.mag() >= 1,
                    other.mag() >= 1,
            ;
        }
        Int::from(out, self.sign.xor(other.sign)).simplify()
    }
}

/// Sign analysis of an integer product.
proof fn lemma_mul_signs(a: int, b: int)
    ensures
        a >= 0 && b >= 0 ==> a * b == abs_int(a) * abs_int(b),
        a <= 0 && b <= 0 ==> a * b == abs_int(a) * abs_int(b),
        a >= 0 && b <= 0 ==> a * b == -(abs_int(a) * abs_int(b)),
        a <= 0 && b >= 0 ==> a * b == -(abs_int(a) * abs_int(b)),
{
    assert(a * b == (-a) * (-b)) by (nonlinear_arith);
    assert(a * (-b) == -(a * b)) by (nonlinear_arith);
    assert((-a) * b == -(a * b)) by (nonlinear_arith);
}


impl Int {
    /// Truncating signed division: the quotient rounds toward zero and its
    /// sign is the XOR of the operand signs.  Dividing by zero is a
    /// precondition violation, not an error value.
    pub fn div(&self, other: &Int) -> (r: Int)
        requires
            self.wf(),
            other.wf(),
            other.value@.len() > 0,
        ensures
            r.wf(),
            r.as_int() == tdiv(self.as_int(), other.as_int()),
    {
        proof {
            lemma_mag_pos(other.value@);
            lemma_sign_abs(*self);
            lemma_sign_abs(*other);
        }
        match self.cmp(other) {
            Ordering::Less => {
                proof {
                    lemma_basic_div_pub(self.mag() as int, other.mag() as int);
                }
                return Int::zero();
            },
            Ordering::Equal => {
                let mut v: Vec<u64> = Vec::new();
                v.push(1);
                proof {
                    lemma_win_single(v@, 0);
                    assert(v@.subrange(0, 1) =~= v@);
                    lemma_div_self_pub(self.mag() as int);
                }
                return Int::from(v, self.sign.xor(other.sign));
            },
            Ordering::Greater => {},
        }
        proof {
            lemma_mag_pos(self.value@);
        }
        if other.is_one() {
            proof {
                lemma_div_one_pub(self.mag() as int);
            }
            return Int::from(copy_limbs(&self.value), self.sign.xor(other.sign));
        }
        let mut r = copy_limbs(&self.value);
        r.push(0);
        let mut d = copy_limbs(&other.value);
        proof {
            if self.value@.len() < other.value@.len() {
                lemma_trimmed_lt_pub(self.value@, other.value@);
            }
        }
        let mut q = zeros(self.value.len() - other.value.len() + 1);
        proof {
            lemma_val_push_zero(self.value@);
            lemma_div_fits(self.value@, other.value@, (self.value@.len() - other.value@.len()
                + 1) as int);
            lemma_mag_pos(other.value@);
        }
        div_rem(&mut r, &mut d, &mut q);
        proof {
            lemma_div_pos_is_pos_pub(self.mag() as int, other.mag() as int);
            lemma_quotient_pos(self.mag(), other.mag());
        }
        Int::from(q, self.sign.xor(other.sign)).simplify()
    }

    /// The remainder matching `div`: `self - other * self.div(other)`,
    /// which takes the dividend's sign.
    pub fn rem(&self, other: &Int) -> (r: Int)
        requires
            self.wf(),
            other.wf(),
            other.value@.len() > 0,
        ensures
            r.wf(),
            r.as_int() == tmod(self.as_int(), other.as_int()),
    {
        proof {
            lemma_mag_pos(other.value@);
            lemma_sign_abs(*self);
            lemma_sign_abs(*other);
            lemma_tmod_shape(*self, *other);
        }
        match self.cmp(other) {
            Ordering::Less => {
                proof {
                    lemma_basic_div_pub(self.mag() as int, other.mag() as int);
                    lemma_small_mod_pub(self.mag(), other.mag());
                }
                return self.clone();
            },
            Ordering::Equal => {
                proof {
                    lemma_div_self_pub(self.mag() as int);
                    vstd::arithmetic::div_mod::lemma_mod_self_0(self.mag() as int);
                }
                return Int::zero();
            },
            Ordering::Greater => {},
        }
        proof {
            lemma_mag_pos(self.value@);
        }
        if other.is_one() {
            proof {
                lemma_div_one_pub(self.mag() as int);
                assert(self.mag() as int % 1int == 0) by {
                    vstd::arithmetic::div_mod::lemma_fundamental_div_mod_converse(
                        self.mag() as int,
                        1int,
                        self.mag() as int,
                        0int,
                    );
                }
            }
            return Int::zero();
        }
        let mut r = copy_limbs(&self.value);
        r.push(0);
        let mut d = copy_limbs(&other.value);
        proof {
            if self.value@.len() < other.value@.len() {
                lemma_trimmed_lt_pub(self.value@, other.value@);
            }
        }
        let mut q = zeros(self.value.len() - other.value.len() + 1);
        proof {
            lemma_val_push_zero(self.value@);
            lemma_div_fits(self.value@, other.value@, (self.value@.len() - other.value@.len()
                + 1) as int);
        }
        div_rem(&mut r, &mut d, &mut q);
        Int::from(r, self.sign).simplify()
    }

    /// Exponentiation by squaring; `exp(0)` is one by convention.
    pub fn exp(&self, n: usize) -> (r: Int)
        requires
            self.wf(),
        ensures
            r.wf(),
            r.as_int() == vstd::arithmetic::power::pow(self.as_int(), n as nat),
        decreases n,
    {
        if n == 0 {
            proof {
                vstd::arithmetic::power::lemma_pow0(self.as_int());
            }
            Int::one()
        } else if n == 1 {
            proof {
                vstd::arithmetic::power::lemma_pow1(self.as_int());
            }
            self.clone()
        } else if n % 2 == 0 {
            let square = self.mul(self);
            let r = square.exp(n / 2);
            proof {
                lemma_pow_square(self.as_int(), (n / 2) as nat);
            }
            r
        } else {
            let square = self.mul(self);
            let r = self.mul(&square.exp(n / 2));
            proof {
                lemma_pow_square(self.as_int(), (n / 2) as nat);
                vstd::arithmetic::power::lemma_pow1(self.as_int());
                vstd::arithmetic::power::lemma_pow_adds(self.as_int(), 1, (n - 1) as nat);
            }
            r
        }
    }

    /// The factorial, defined for values at least one.
    pub fn fact(&self) -> (r: Int)
        requires
            self.wf(),
            self.as_int() >= 1,
        ensures
            r.wf(),
            r.as_int() == fact_int(self.as_int()),
        decreases self.as_int(),
    {
        proof {
            if self.value@.len() == 0 {
                assert(self.as_int() == 0);
            }
        }
        if self.is_one() {
            self.clone()
        } else {
            let next = self.sub(&Int::one());
            let f = next.fact();
            self.mul(&f)
        }
    }
}

/// The sign and the absolute value determine each other for well-formed
/// integers.
proof fn lemma_sign_abs(x: Int)
    requires
        x.wf(),
    ensures
        abs_int(x.as_int()) == x.mag(),
        x.value@.len() > 0 && x.sign == Sign::Positive ==> x.as_int() >= 1,
        x.value@.len() > 0 && x.sign == Sign::Negative ==> x.as_int() <= -1,
{
    if x.value@.len() > 0 {
        lemma_mag_pos(x.value@);
    }
}

/// `a / b == 0` when `0 <= a < b`.
proof fn lemma_basic_div_pub(a: int, b: int)
    requires
        0 <= a < b,
    ensures
        a / b == 0,
{
    vstd::arithmetic::div_mod::lemma_basic_div(a, b);
}

/// `a % b == a` when `0 <= a < b`.
proof fn lemma_small_mod_pub(a: nat, b: nat)
    requires
        a < b,
        b > 0,
    ensures
        a % b == a,
{
    vstd::arithmetic::div_mod::lemma_small_mod(a, b);
}

proof fn lemma_div_self_pub(a: int)
    requires
        a > 0,
    ensures
        a / a == 1,
{
    vstd::arithmetic::div_mod::lemma_div_by_self(a);
}

proof fn lemma_div_one_pub(a: int)
    requires
        a >= 0,
    ensures
        a / 1 == a,
{
    vstd::arithmetic::div_mod::lemma_div_basics(a);
}

proof fn lemma_div_pos_is_pos_pub(a: int, b: int)
    requires
        0 <= a,
        0 < b,
    ensures
        a / b >= 0,
{
    vstd::arithmetic::div_mod::lemma_div_pos_is_pos(a, b);
}

/// A quotient of a strictly larger numerator is at least one.
proof fn lemma_quotient_pos(a: nat, b: nat)
    requires
        b > 0,
        a > b,
    ensures
        a / b >= 1,
{
    vstd::arithmetic::div_mod::lemma_div_non_zero(a as int, b as int);
}

/// `pow(b*b, k) == pow(b, 2k)`.
proof fn lemma_pow_square(b: int, k: nat)
    ensures
        vstd::arithmetic::power::pow(b * b, k) == vstd::arithmetic::power::pow(b, 2 * k),
{
    vstd::arithmetic::power::lemma_square_is_pow2(b);
    vstd::arithmetic::power::lemma_pow_multiplies(b, 2, k);
}

/// The magnitude bound needed by the division routine.
proof fn lemma_div_fits(a: Seq<u64>, b: Seq<u64>, qlen: int)
    requires
        trimmed(b),
        b.len() > 0,
        a.len() >= b.len(),
        qlen == a.len() - b.len() + 1,
    ensures
        val(a) < val(b) * pow2(64 * qlen as nat),
{
    lemma_val_bound(a);
    lemma_val_lower(b);
    lemma_pow2_adds(64 * (b.len() - 1) as nat, 64 * qlen as nat);
    lemma_pow2_pos(64 * qlen as nat);
    lemma_pow2_pos(64 * (b.len() - 1) as nat);
    assert(val(b) * pow2(64 * qlen as nat) >= pow2(64 * (b.len() - 1) as nat) * pow2(
        64 * qlen as nat,
    )) by (nonlinear_arith)
        requires
            val(b) >= pow2(64 * (b.len() - 1) as nat),
            pow2(64 * qlen as nat) > 0,
    ;
}

/// The shape of the truncating remainder for well-formed operands: it is
/// the remainder of the magnitudes, carrying the dividend's sign.
proof fn lemma_tmod_shape(a: Int, b: Int)
    requires
        a.wf(),
        b.wf(),
        b.value@.len() > 0,
    ensures
        a.sign == Sign::Positive ==> tmod(a.as_int(), b.as_int()) == (a.mag() % b.mag()) as int,
        a.sign == Sign::Negative ==> tmod(a.as_int(), b.as_int()) == -((a.mag() % b.mag()) as int),
{
    lemma_mag_pos(b.value@);
    lemma_sign_abs(a);
    lemma_sign_abs(b);
    let ma = a.mag() as int;
    let mb = b.mag() as int;
    vstd::arithmetic::div_mod::lemma_fundamental_div_mod(ma, mb);
    let q = ma / mb;
    if a.sign == Sign::Positive {
        if b.sign == Sign::Positive {
            assert(tmod(a.as_int(), b.as_int()) == ma - mb * q);
        } else {
            assert(b.as_int() == -mb);
            assert(tdiv(a.as_int(), b.as_int()) == -q);
            assert((-mb) * (-q) == mb * q) by (nonlinear_arith);
        }
    } else {
        if b.sign == Sign::Positive {
            assert(a.as_int() == -ma);
            assert(tdiv(a.as_int(), b.as_int()) == -q);
            assert(mb * (-q) == -(mb * q)) by (nonlinear_arith);
        } else {
            assert(a.as_int() == -ma && b.as_int() == -mb);
            assert(tdiv(a.as_int(), b.as_int()) == q);
            assert((-mb) * q == -(mb * q)) by (nonlinear_arith);
        }
    }
}

} // verus!
