//! Joining a slice of machine integers into one string with a separator.

use vstd::prelude::*;
use crate::decimal::{dec_str, lsb_val, lemma_emit, lemma_lsb_decstr, p10, lemma_p10_pos};
use crate::strings::push_char_pub;
use vstd::arithmetic::div_mod::*;

verus! {

/// The decimal text of a signed machine integer.
pub open spec fn i64_str(x: int) -> Seq<char> {
    if x < 0 {
        seq!['-'] + dec_str((-x) as nat)
    } else {
        dec_str(x as nat)
    }
}

/// The elements' decimal texts with the separator between them.
pub open spec fn join_spec(s: Seq<i64>, sep: Seq<char>) -> Seq<char>
    decreases s.len(),
{
    if s.len() == 0 {
        Seq::empty()
    } else if s.len() == 1 {
        i64_str(s[0] as int)
    } else {
        join_spec(s.drop_last(), sep) + sep + i64_str(s.last() as int)
    }
}

/// The decimal text of one signed integer.
fn i64_string(x: i64) -> (r: String)
    ensures
        r@ == i64_str(x as int),
{
    let mut out = String::new();
    let m: u64 = if x < 0 {
        (-(x as i128)) as u64
    } else {
        x as u64
    };
    if x < 0 {
        push_char_pub(&mut out, '-');
    }
    if m == 0 {
        push_char_pub(&mut out, '0');
        proof {
            assert(dec_str(0) =~= seq![(48 as u8) as char]);
            assert((48 as u8) as char == '0');
            assert(out@ =~= i64_str(x as int));
        }
        return out;
    }
    let mut outd: Vec<u8> = Vec::new();
    let mut r = m;
    proof {
        lemma_p10_pos(0);
        assert(p10(0) == 1);
        assert(m as nat * p10(0) == m) by (nonlinear_arith)
            requires
                p10(0) == 1,
        ;
    }
    while r != 0
        invariant
            forall|k: int| 0 <= k < outd@.len() ==> outd@[k] < 10,
            m == r as nat * p10(outd@.len()) + lsb_val(outd@),
            r == 0 ==> outd@.len() > 0 && outd@.last() != 0,
            r != 0 || outd@.len() > 0,
            m >= 1,
        decreases r,
    {
        let d = (r % 10) as u8;
        proof {
            lemma_emit(m as nat, r as nat, outd@, d);
            if r / 10 == 0 {
                assert(r < 10);
                assert(d == r);
                assert(outd@.push(d).last() == d);
            }
            lemma_div_is_strictly_smaller(r as int, 10);
        }
        outd.push(d);
        r = r / 10;
    }
    proof {
        assert(0 * p10(outd@.len()) == 0) by (nonlinear_arith);
        assert(m == lsb_val(outd@));
        lemma_lsb_decstr(outd@);
    }
    let ghost pre = out@;
    let total = outd.len();
    let mut k: usize = total;
    while k > 0
        invariant
            k <= total == outd@.len(),
            forall|t: int| 0 <= t < outd@.len() ==> outd@[t] < 10,
            dec_str(m as nat) =~= Seq::new(
                outd@.len(),
                |j: int| ((outd@[outd@.len() - 1 - j] + 48) as u8) as char,
            ),
            out@ == pre + dec_str(m as nat).take(total - k),
        decreases k,
    {
        k = k - 1;
        let c = (outd[k] + 48) as u8;
        push_char_pub(&mut out, c as char);
        proof {
            assert(out@ =~= pre + dec_str(m as nat).take(total - k));
        }
    }
    proof {
        assert(dec_str(m as nat).take(total as int) =~= dec_str(m as nat));
        if x < 0 {
            assert(pre =~= seq!['-']);
            assert(out@ =~= i64_str(x as int));
        } else {
            assert(pre =~= Seq::<char>::empty());
            assert(out@ =~= i64_str(x as int));
        }
    }
    out
}

/// Join the decimal texts of the entries, separated by `sep`.
pub fn join(a: &[i64], sep: &str) -> (r: String)
    ensures
        r@ == join_spec(a@, sep@),
{
    let mut out = String::new();
    let mut i: usize = 0;
    proof {
        assert(a@.take(0) =~= Seq::<i64>::empty());
    }
    while i < a.len()
        invariant
            i <= a@.len(),
            out@ == join_spec(a@.take(i as int), sep@),
        decreases a@.len() - i,
    {
        if i > 0 {
            out.append(sep);
        }
        let num = i64_string(a[i]);
        out.append(num.as_str());
        proof {
            assert(a@.take(i + 1).drop_last() =~= a@.take(i as int));
            assert(a@.take(i + 1).last() == a@[i as int]);
            if i == 0 {
                assert(out@ =~= join_spec(a@.take(1), sep@));
            }
        }
        i = i + 1;
    }
    proof {
        assert(a@.take(a@.len() as int) =~= a@);
    }
    out
}

} // verus!
