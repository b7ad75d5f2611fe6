//! Knuth-Morris-Pratt substring search over byte strings.

use vstd::prelude::*;

verus! {

/// The pattern occurs in the text at position `i`.
pub open spec fn is_match(p: Seq<u8>, t: Seq<u8>, i: int) -> bool {
    &&& 0 <= i
    &&& i + p.len() <= t.len()
    &&& t.subrange(i, i + p.len() as int) == p
}

/// `j` is a border of the prefix of `p` ending before `i`: the first `j`
/// bytes equal the `j` bytes just before position `i`.
pub open spec fn is_border(p: Seq<u8>, i: int, j: int) -> bool {
    &&& 0 <= j <= i <= p.len()
    &&& p.subrange(0, j) == p.subrange(i - j, i)
}

/// The failure table: `table[x]` is a border length of the prefix of
/// length `x + 1`.
pub open spec fn table_ok(p: Seq<u8>, table: Seq<usize>) -> bool {
    &&& table.len() == p.len()
    &&& forall|x: int| 0 <= x < table.len() ==> #[trigger] table[x] <= x
    &&& forall|x: int| 0 <= x < table.len() ==> is_border(p, x + 1, #[trigger] table[x] as int)
}

/// Matching sub-windows of equal windows are equal.
proof fn lemma_window_eq(
    x: Seq<u8>,
    xa: int,
    y: Seq<u8>,
    ya: int,
    len: int,
    off: int,
    len2: int,
)
    requires
        0 <= xa,
        0 <= ya,
        0 <= off,
        off + len2 <= len,
        0 <= len2,
        xa + len <= x.len(),
        ya + len <= y.len(),
        x.subrange(xa, xa + len) == y.subrange(ya, ya + len),
    ensures
        x.subrange(xa + off, xa + off + len2) == y.subrange(ya + off, ya + off + len2),
{
    assert(x.subrange(xa + off, xa + off + len2) =~= y.subrange(ya + off, ya + off + len2)) by {
        assert forall|k: int|
            0 <= k < len2 implies #[trigger] x.subrange(xa + off, xa + off + len2)[k]
            == y.subrange(ya + off, ya + off + len2)[k] by {
            assert(x.subrange(xa, xa + len)[off + k] == y.subrange(ya, ya + len)[off + k]);
            assert(x.subrange(xa + off, xa + off + len2)[k] == x[xa + off + k]);
            assert(x.subrange(xa, xa + len)[off + k] == x[xa + (off + k)]);
            assert(y.subrange(ya + off, ya + off + len2)[k] == y[ya + off + k]);
            assert(y.subrange(ya, ya + len)[off + k] == y[ya + (off + k)]);
        }
    }
}

/// Equal windows extended by one equal element stay equal.
proof fn lemma_window_extend(x: Seq<u8>, xa: int, y: Seq<u8>, ya: int, len: int)
    requires
        0 <= xa,
        0 <= ya,
        0 <= len,
        xa + len < x.len(),
        ya + len < y.len(),
        x.subrange(xa, xa + len) == y.subrange(ya, ya + len),
        x[xa + len] == y[ya + len],
    ensures
        x.subrange(xa, xa + len + 1) == y.subrange(ya, ya + len + 1),
{
    assert(x.subrange(xa, xa + len + 1) =~= y.subrange(ya, ya + len + 1)) by {
        assert forall|k: int|
            0 <= k < len + 1 implies #[trigger] x.subrange(xa, xa + len + 1)[k] == y.subrange(
            ya,
            ya + len + 1,
        )[k] by {
            if k < len {
                assert(x.subrange(xa, xa + len)[k] == y.subrange(ya, ya + len)[k]);
            }
        }
    }
}

/// A shorter border carries over to the longer window it sits inside.
proof fn lemma_border_chain(p: Seq<u8>, i: int, j: int, j2: int)
    requires
        is_border(p, i, j),
        is_border(p, j, j2),
    ensures
        is_border(p, i, j2),
{
    lemma_window_eq(p, 0, p, i - j, j, j - j2, j2);
}

/// Build the failure table for the pattern.
fn kmp_table(pattern: &[u8]) -> (table: Vec<usize>)
    requires
        pattern@.len() >= 1,
    ensures
        table_ok(pattern@, table@),
{
    let ghost p = pattern@;
    let mut table: Vec<usize> = Vec::new();
    table.push(0);
    proof {
        assert(p.subrange(0, 0) =~= p.subrange(1, 1));
    }
    let mut i: usize = 1;
    while i < pattern.len()
        invariant
            1 <= i <= p.len() == pattern@.len(),
            p == pattern@,
            table@.len() == i,
            forall|x: int| 0 <= x < i ==> #[trigger] table@[x] <= x,
            forall|x: int| 0 <= x < i ==> is_border(p, x + 1, #[trigger] table@[x] as int),
        decreases p.len() - i,
    {
        let mut j = table[i - 1];
        proof {
            assert(is_border(p, i as int, j as int));
        }
        while j > 0 && pattern[j] != pattern[i]
            invariant
                1 <= i < p.len(),
                p == pattern@,
                table@.len() == i,
                forall|x: int| 0 <= x < i ==> #[trigger] table@[x] <= x,
                forall|x: int| 0 <= x < i ==> is_border(p, x + 1, #[trigger] table@[x] as int),
                is_border(p, i as int, j as int),
                j < i,
            decreases j,
        {
            let j2 = table[j - 1];
            proof {
                assert(is_border(p, j as int, j2 as int));
                lemma_border_chain(p, i as int, j as int, j2 as int);
            }
            j = j2;
        }
        let e = if pattern[j] == pattern[i] {
            proof {
                lemma_window_extend(p, 0, p, i - j, j as int);
            }
            j + 1
        } else {
            proof {
                assert(p.subrange(0, 0) =~= p.subrange(i + 1, i + 1));
            }
            0
        };
        table.push(e);
        i = i + 1;
    }
    table
}

/// The index of a left-most-found occurrence of `pattern` in `txt`, or
/// `-1`; an empty pattern, an empty text, or a pattern longer than the
/// text give `-1`.  A non-negative result is always a real occurrence.
pub fn kmp(pattern: &[u8], txt: &[u8]) -> (r: isize)
    requires
        txt@.len() < 0x7fffffff,
    ensures
        r >= 0 ==> is_match(pattern@, txt@, r as int),
{
    if pattern.len() == 0 || txt.len() == 0 || pattern.len() > txt.len() {
        return -1;
    }
    let ghost p = pattern@;
    let ghost t = txt@;
    let table = kmp_table(pattern);
    let mut j: usize = 0;
    let mut i: usize = 0;
    while i < txt.len()
        invariant
            p == pattern@,
            t == txt@,
            1 <= p.len() <= t.len() < 0x7fffffff,
            table_ok(p, table@),
            i <= t.len(),
            j <= p.len(),
            j <= i,
            j < p.len(),
            p.subrange(0, j as int) == t.subrange(i - j, i as int),
        decreases t.len() - i,
    {
        let c = txt[i];
        while j > 0 && c != pattern[j]
            invariant
                p == pattern@,
                t == txt@,
                table_ok(p, table@),
                i < t.len(),
                j < p.len(),
                j <= i,
                c == t[i as int],
                p.subrange(0, j as int) == t.subrange(i - j, i as int),
            decreases j,
        {
            let j2 = table[j - 1];
            proof {
                assert(is_border(p, j as int, j2 as int));
                lemma_window_eq(p, 0, t, i - j, j as int, j - j2, j2 as int);
                lemma_window_eq(p, 0, p, j - j2, j2 as int, 0, j2 as int);
            }
            j = j2;
        }
        let matched = c == pattern[j];
        proof {
            if matched {
                lemma_window_extend(p, 0, t, i - j, j as int);
            } else {
                assert(p.subrange(0, 0) =~= t.subrange(i + 1, i + 1));
            }
        }
        if matched {
            j = j + 1;
        }
        if j == pattern.len() {
            proof {
                assert(p.subrange(0, p.len() as int) =~= p);
                assert(is_match(p, t, i + 1 - j));
            }
            return (i + 1 - j) as isize;
        }
        i = i + 1;
    }
    -1
}

/// All positions found by the same scan, left to right; every reported
/// position is a real occurrence, in strictly increasing order.
pub fn kmp_all(pattern: &[u8], txt: &[u8]) -> (out: Vec<usize>)
    requires
        txt@.len() < 0x7fffffff,
    ensures
        forall|k: int| 0 <= k < out@.len() ==> is_match(pattern@, txt@, #[trigger] out@[k] as int),
        forall|k1: int, k2: int| 0 <= k1 < k2 < out@.len() ==> out@[k1] < out@[k2],
    {
    let mut out: Vec<usize> = Vec::new();
    if pattern.len() == 0 || txt.len() == 0 || pattern.len() > txt.len() {
        return out;
    }
    let ghost p = pattern@;
    let ghost t = txt@;
    let table = kmp_table(pattern);
    let mut j: usize = 0;
    let mut i: usize = 0;
    while i < txt.len()
        invariant
            p == pattern@,
            t == txt@,
            1 <= p.len() <= t.len() < 0x7fffffff,
            table_ok(p, table@),
            i <= t.len(),
            j <= p.len(),
            j <= i,
            j < p.len(),
            p.subrange(0, j as int) == t.subrange(i - j, i as int),
            forall|k: int| 0 <= k < out@.len() ==> is_match(p, t, #[trigger] out@[k] as int),
            forall|k1: int, k2: int| 0 <= k1 < k2 < out@.len() ==> out@[k1] < out@[k2],
            forall|k: int| 0 <= k < out@.len() ==> #[trigger] out@[k] + p.len() <= i,
        decreases t.len() - i,
    {
        let c = txt[i];
        while j > 0 && c != pattern[j]
            invariant
                p == pattern@,
                t == txt@,
                table_ok(p, table@),
                i < t.len(),
                j < p.len(),
                j <= i,
                c == t[i as int],
                p.subrange(0, j as int) == t.subrange(i - j, i as int),
            decreases j,
        {
            let j2 = table[j - 1];
            proof {
                assert(is_border(p, j as int, j2 as int));
                lemma_window_eq(p, 0, t, i - j, j as int, j - j2, j2 as int);
                lemma_window_eq(p, 0, p, j - j2, j2 as int, 0, j2 as int);
            }
            j = j2;
        }
        let matched = c == pattern[j];
        proof {
            if matched {
                lemma_window_extend(p, 0, t, i - j, j as int);
            } else {
                assert(p.subrange(0, 0) =~= t.subrange(i + 1, i + 1));
            }
        }
        if matched {
            j = j + 1;
        }
        if j == pattern.len() {
            proof {
                assert(p.subrange(0, p.len() as int) =~= p);
                assert(is_match(p, t, i + 1 - j));
            }
            out.push(i + 1 - j);
            let j2 = table[j - 1];
            proof {
                assert(is_border(p, j as int, j2 as int));
                lemma_window_eq(p, 0, t, i + 1 - j, j as int, j - j2, j2 as int);
                lemma_window_eq(p, 0, p, j - j2, j2 as int, 0, j2 as int);
            }
            j = j2;
        }
        i = i + 1;
    }
    out
}

} // verus!
