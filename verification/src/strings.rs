//! ASCII case-convention helpers: snake_case and PascalCase.

use vstd::prelude::*;

verus! {

/// Relies on `String::push`: appends exactly one character at the end.
#[verifier::external_body]
pub(crate) fn push_char_pub(s: &mut String, c: char)
    ensures
        final(s)@ == old(s)@.push(c),
{
    s.push(c);
}

pub open spec fn is_upper(c: char) -> bool {
    65 <= c as u32 <= 90
}

pub open spec fn is_lower(c: char) -> bool {
    97 <= c as u32 <= 122
}

/// Convert an ASCII identifier to snake_case: every upper-case letter is
/// lowered, with an underscore before it except at the start.
pub fn to_snake_case(s: &str) -> (r: String)
    requires
        s@.len() >= 1,
        forall|i: int| 0 <= i < s@.len() ==> ((#[trigger] s@[i]) as u32) < 128,
    ensures
        forall|i: int| #![trigger r@[i]] 0 <= i < r@.len() ==> !is_upper(r@[i]),
{
    let n = s.unicode_len();
    let mut out = String::new();
    let first = s.get_char(0);
    let fx = first as u32;
    if 65 <= fx && fx <= 90 {
        push_char_pub(&mut out, ((fx + 32) as u8) as char);
    } else {
        push_char_pub(&mut out, first);
    }
    let mut i: usize = 1;
    while i < n
        invariant
            n == s@.len(),
            forall|x: int| 0 <= x < s@.len() ==> ((#[trigger] s@[x]) as u32) < 128,
            forall|x: int| #![trigger out@[x]] 0 <= x < out@.len() ==> !is_upper(out@[x]),
        decreases n - i,
    {
        let c = s.get_char(i);
        let x = c as u32;
        if 65 <= x && x <= 90 {
            push_char_pub(&mut out, '_');
            push_char_pub(&mut out, ((x + 32) as u8) as char);
        } else {
            push_char_pub(&mut out, c);
        }
        i = i + 1;
    }
    out
}

/// Convert an ASCII snake_case identifier to PascalCase: the first letter
/// and each letter after an underscore is raised, underscores dropped.
/// An underscore must not be the last character.
pub fn to_pascal_case(s: &str) -> (r: String)
    requires
        s@.len() >= 1,
        forall|i: int| 0 <= i < s@.len() ==> ((#[trigger] s@[i]) as u32) < 128,
        s@[s@.len() - 1] as u32 != 95,
{
    let n = s.unicode_len();
    let mut out = String::new();
    let first = s.get_char(0);
    let fx = first as u32;
    if 97 <= fx && fx <= 122 {
        push_char_pub(&mut out, ((fx - 32) as u8) as char);
    } else if fx == 95 {
        push_char_pub(&mut out, first);
    } else {
        push_char_pub(&mut out, first);
    }
    let mut i: usize = 1;
    while i < n
        invariant
            n == s@.len(),
            forall|x: int| 0 <= x < s@.len() ==> ((#[trigger] s@[x]) as u32) < 128,
            s@[s@.len() - 1] as u32 != 95,
        decreases n - i,
    {
        let c = s.get_char(i);
        let x = c as u32;
        if x == 95 {
            let d = s.get_char(i + 1);
            proof {
                assert(i + 1 < s@.len()) by {
                    if i + 1 == s@.len() {
                        assert(s@[s@.len() - 1] as u32 == 95);
                    }
                }
            }
            let dx = d as u32;
            if 97 <= dx && dx <= 122 {
                push_char_pub(&mut out, ((dx - 32) as u8) as char);
            } else {
                push_char_pub(&mut out, d);
            }
            i = i + 2;
        } else {
            push_char_pub(&mut out, c);
            i = i + 1;
        }
    }
    out
}

} // verus!
