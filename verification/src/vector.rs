//! Element-wise vector operations over machine integers.  The entry
//! bounds keep every partial sum and product comfortably inside `i64`.

use vstd::prelude::*;

verus! {

/// The largest entry magnitude the vector operations accept.
pub open spec fn vec_bound() -> int {
    0x100000
}

/// All entries within the accepted bound.
pub open spec fn bounded(s: Seq<i64>) -> bool {
    forall|k: int| 0 <= k < s.len() ==> -0x100000 <= #[trigger] s[k] <= 0x100000
}

/// The sum of a sequence.
pub open spec fn sum_seq(s: Seq<i64>) -> int
    decreases s.len(),
{
    if s.len() == 0 {
        0
    } else {
        sum_seq(s.drop_last()) + s.last()
    }
}

/// The dot product of two sequences, over the shorter length.
pub open spec fn dot_seq(a: Seq<i64>, b: Seq<i64>, n: int) -> int
    decreases n,
{
    if n <= 0 {
        0
    } else {
        dot_seq(a, b, n - 1) + a[n - 1] * b[n - 1]
    }
}

pub struct VectorOp;

impl VectorOp {
    /// The sum of all entries.
    pub fn sum(a: &[i64]) -> (r: i64)
        requires
            bounded(a@),
            a@.len() <= 0x100000,
        ensures
            r == sum_seq(a@),
    {
        let mut out: i64 = 0;
        let mut i: usize = 0;
        while i < a.len()
            invariant
                i <= a@.len() <= 0x100000,
                bounded(a@),
                out == sum_seq(a@.take(i as int)),
                -0x100000 * i <= out <= 0x100000 * i,
            decreases a@.len() - i,
        {
            proof {
                assert(a@.take(i + 1).drop_last() =~= a@.take(i as int));
                assert(a@.take(i + 1).last() == a@[i as int]);
            }
            out = out + a[i];
            i = i + 1;
        }
        proof {
            assert(a@.take(a@.len() as int) =~= a@);
        }
        out
    }

    /// The dot product over the overlapping prefix.
    pub fn dot(a: &[i64], b: &[i64]) -> (r: i64)
        requires
            bounded(a@),
            bounded(b@),
            a@.len() <= 0x100000,
        ensures
            r == dot_seq(a@, b@, (if a@.len() <= b@.len() {
                a@.len() as int
            } else {
                b@.len() as int
            })),
    {
        let n = if a.len() <= b.len() {
            a.len()
        } else {
            b.len()
        };
        let mut out: i64 = 0;
        let mut i: usize = 0;
        while i < n
            invariant
                i <= n <= a@.len() <= 0x100000,
                n <= b@.len(),
                bounded(a@),
                bounded(b@),
                out == dot_seq(a@, b@, i as int),
                -0x10000000000 * i <= out <= 0x10000000000 * i,
            decreases n - i,
        {
            let x = a[i];
            let y = b[i];
            proof {
                assert(-0x10000000000 <= x * y <= 0x10000000000) by (nonlinear_arith)
                    requires
                        -0x100000 <= x <= 0x100000,
                        -0x100000 <= y <= 0x100000,
                ;
            }
            out = out + x * y;
            i = i + 1;
        }
        out
    }

    /// `a[i] += b[i]` over the overlapping prefix.
    pub fn add_assign(a: &mut [i64], b: &[i64])
        requires
            bounded(old(a)@),
            bounded(b@),
        ensures
            final(a)@.len() == old(a)@.len(),
            forall|k: int|
                0 <= k < final(a)@.len() ==> final(a)@[k] == (if k < b@.len() {
                    old(a)@[k] + b@[k]
                } else {
                    old(a)@[k] as int
                }),
    {
        let n = if a.len() <= b.len() {
            a.len()
        } else {
            b.len()
        };
        let mut i: usize = 0;
        while i < n
            invariant
                i <= n <= a@.len(),
                n <= b@.len(),
                bounded(old(a)@),
                bounded(b@),
                a@.len() == old(a)@.len(),
                forall|k: int| i <= k < a@.len() ==> a@[k] == old(a)@[k],
                forall|k: int| 0 <= k < i ==> a@[k] == old(a)@[k] + b@[k],
            decreases n - i,
        {
            let x = a[i];
            a[i] = x + b[i];
            i = i + 1;
        }
    }

    /// `a[i] += x` for every entry.
    pub fn add_assign_with(a: &mut [i64], x: i64)
        requires
            bounded(old(a)@),
            -0x100000 <= x <= 0x100000,
        ensures
            final(a)@.len() == old(a)@.len(),
            forall|k: int| 0 <= k < final(a)@.len() ==> final(a)@[k] == old(a)@[k] + x,
    {
        let mut i: usize = 0;
        while i < a.len()
            invariant
                i <= a@.len() == old(a)@.len(),
                bounded(old(a)@),
                -0x100000 <= x <= 0x100000,
                forall|k: int| i <= k < a@.len() ==> a@[k] == old(a)@[k],
                forall|k: int| 0 <= k < i ==> a@[k] == old(a)@[k] + x,
            decreases a@.len() - i,
        {
            let y = a[i];
            a[i] = y + x;
            i = i + 1;
        }
    }

    /// Element-wise difference of two fixed-size arrays.
    pub fn sub<const N: usize>(a: [i64; N], b: [i64; N]) -> (r: [i64; N])
        requires
            bounded(a@),
            bounded(b@),
        ensures
            forall|k: int| 0 <= k < N ==> r@[k] == a@[k] - b@[k],
    {
        let mut out = vstd::array::array_fill_for_copy_types::<i64, N>(0);
        let mut i: usize = 0;
        while i < N
            invariant
                i <= N,
                bounded(a@),
                bounded(b@),
                forall|k: int| 0 <= k < i ==> out@[k] == a@[k] - b@[k],
            decreases N - i,
        {
            out[i] = a[i] - b[i];
            i = i + 1;
        }
        out
    }

    /// `a[i] -= b[i]` over the overlapping prefix.
    pub fn sub_assign(a: &mut [i64], b: &[i64])
        requires
            bounded(old(a)@),
            bounded(b@),
        ensures
            final(a)@.len() == old(a)@.len(),
            forall|k: int|
                0 <= k < final(a)@.len() ==> final(a)@[k] == (if k < b@.len() {
                    old(a)@[k] - b@[k]
                } else {
                    old(a)@[k] as int
                }),
    {
        let n = if a.len() <= b.len() {
            a.len()
        } else {
            b.len()
        };
        let mut i: usize = 0;
        while i < n
            invariant
                i <= n <= a@.len(),
                n <= b@.len(),
                bounded(old(a)@),
                bounded(b@),
                a@.len() == old(a)@.len(),
                forall|k: int| i <= k < a@.len() ==> a@[k] == old(a)@[k],
                forall|k: int| 0 <= k < i ==> a@[k] == old(a)@[k] - b@[k],
            decreases n - i,
        {
            let x = a[i];
            a[i] = x - b[i];
            i = i + 1;
        }
    }

    /// `a[i] -= x` for every entry.
    pub fn sub_assign_with(a: &mut [i64], x: i64)
        requires
            bounded(old(a)@),
            -0x100000 <= x <= 0x100000,
        ensures
            final(a)@.len() == old(a)@.len(),
            forall|k: int| 0 <= k < final(a)@.len() ==> final(a)@[k] == old(a)@[k] - x,
    {
        let mut i: usize = 0;
        while i < a.len()
            invariant
                i <= a@.len() == old(a)@.len(),
                bounded(old(a)@),
                -0x100000 <= x <= 0x100000,
                forall|k: int| i <= k < a@.len() ==> a@[k] == old(a)@[k],
                forall|k: int| 0 <= k < i ==> a@[k] == old(a)@[k] - x,
            decreases a@.len() - i,
        {
            let y = a[i];
            a[i] = y - x;
            i = i + 1;
        }
    }

    /// `a[i] *= b[i]` over the overlapping prefix.
    pub fn mul_assign(a: &mut [i64], b: &[i64])
        requires
            bounded(old(a)@),
            bounded(b@),
        ensures
            final(a)@.len() == old(a)@.len(),
            forall|k: int|
                0 <= k < final(a)@.len() ==> final(a)@[k] == (if k < b@.len() {
                    old(a)@[k] * b@[k]
                } else {
                    old(a)@[k] as int
                }),
    {
        let n = if a.len() <= b.len() {
            a.len()
        } else {
            b.len()
        };
        let mut i: usize = 0;
        while i < n
            invariant
                i <= n <= a@.len(),
                n <= b@.len(),
                bounded(old(a)@),
                bounded(b@),
                a@.len() == old(a)@.len(),
                forall|k: int| i <= k < a@.len() ==> a@[k] == old(a)@[k],
                forall|k: int| 0 <= k < i ==> a@[k] == old(a)@[k] * b@[k],
            decreases n - i,
        {
            let x = a[i];
            let y = b[i];
            proof {
                assert(-0x10000000000 <= x * y <= 0x10000000000) by (nonlinear_arith)
                    requires
                        -0x100000 <= x <= 0x100000,
                        -0x100000 <= y <= 0x100000,
                ;
            }
            a[i] = x * y;
            i = i + 1;
        }
    }

    /// `a[i] *= x` for every entry.
    pub fn mul_assign_with(a: &mut [i64], x: i64)
        requires
            bounded(old(a)@),
            -0x100000 <= x <= 0x100000,
        ensures
            final(a)@.len() == old(a)@.len(),
            forall|k: int| 0 <= k < final(a)@.len() ==> final(a)@[k] == old(a)@[k] * x,
    {
        let mut i: usize = 0;
        while i < a.len()
            invariant
                i <= a@.len() == old(a)@.len(),
                bounded(old(a)@),
                -0x100000 <= x <= 0x100000,
                forall|k: int| i <= k < a@.len() ==> a@[k] == old(a)@[k],
                forall|k: int| 0 <= k < i ==> a@[k] == old(a)@[k] * x,
            decreases a@.len() - i,
        {
            let y = a[i];
            proof {
                assert(-0x10000000000 <= y * x <= 0x10000000000) by (nonlinear_arith)
                    requires
                        -0x100000 <= y <= 0x100000,
                        -0x100000 <= x <= 0x100000,
                ;
            }
            a[i] = y * x;
            i = i + 1;
        }
    }
}

} // verus!
