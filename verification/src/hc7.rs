//! The (7,4) Hamming code: four data bits spread over seven coded bits
//! with three parity bits, correcting any single-bit error.

use vstd::prelude::*;

verus! {

/// The coded byte for a four-bit value: data bits moved to positions
/// 2, 4, 5, 6 and the three parity bits filled in.
pub open spec fn spec_encode7(b: u8) -> u8 {
    let t = ((b & 0xf) & 0b0001) << 2 | ((b & 0xf) & 0b1110) << 3;
    let t0 = t | (((t & 0b000_0100) >> 2) ^ ((t & 0b001_0000) >> 4) ^ ((t & 0b100_0000) >> 6));
    let t1 = t0 | (((t0 & 0b000_0100) >> 1) ^ ((t0 & 0b010_0000) >> 4) ^ ((t0 & 0b100_0000)
        >> 5));
    t1 | (((t1 & 0b001_0000) >> 1) ^ ((t1 & 0b010_0000) >> 2) ^ ((t1 & 0b100_0000) >> 3))
}

/// The decoded four-bit value: recompute the parities, flip the indicated
/// bit, and collect the data bits.
pub open spec fn spec_decode7(b: u8) -> u8 {
    let p0 = ((b & 0b000_0100) >> 2) ^ ((b & 0b001_0000) >> 4) ^ ((b & 0b100_0000) >> 6) ^ (b
        & 0b000_0001);
    let p1 = ((b & 0b000_0100) >> 1) ^ ((b & 0b010_0000) >> 4) ^ ((b & 0b100_0000) >> 5) ^ (b
        & 0b000_0010);
    let p2 = ((b & 0b001_0000) >> 2) ^ ((b & 0b010_0000) >> 3) ^ ((b & 0b100_0000) >> 4) ^ ((b
        & 0b000_1000) >> 1);
    let p = p0 | p1 | p2;
    let c = b ^ ((1u8 << p) >> 1);
    ((c & 0b000_0100) >> 2) | ((c & 0b111_0000) >> 3)
}

pub struct HammingCode7;

impl HammingCode7 {
    fn encode_byte(byte: u8) -> (r: u8)
        ensures
            r == spec_encode7(byte),
    {
        let b = byte & 0xf;
        let byte0 = (b & 0b0001) << 2;
        let byte1 = (b & 0b1110) << 3;
        let mut t = byte0 | byte1;
        let d0 = (t & 0b000_0100) >> 2;
        let d1 = (t & 0b001_0000) >> 4;
        let d3 = (t & 0b100_0000) >> 6;
        t = t | (d0 ^ d1 ^ d3);
        let e0 = (t & 0b000_0100) >> 1;
        let e2 = (t & 0b010_0000) >> 4;
        let e3 = (t & 0b100_0000) >> 5;
        t = t | (e0 ^ e2 ^ e3);
        let f1 = (t & 0b001_0000) >> 1;
        let f2 = (t & 0b010_0000) >> 2;
        let f3 = (t & 0b100_0000) >> 3;
        t | (f1 ^ f2 ^ f3)
    }

    fn decode_byte(byte: u8) -> (r: u8)
        ensures
            r == spec_decode7(byte),
    {
        let p0 = ((byte & 0b000_0100) >> 2) ^ ((byte & 0b001_0000) >> 4) ^ ((byte & 0b100_0000)
            >> 6) ^ (byte & 0b000_0001);
        let p1 = ((byte & 0b000_0100) >> 1) ^ ((byte & 0b010_0000) >> 4) ^ ((byte & 0b100_0000)
            >> 5) ^ (byte & 0b000_0010);
        let p2 = ((byte & 0b001_0000) >> 2) ^ ((byte & 0b010_0000) >> 3) ^ ((byte & 0b100_0000)
            >> 4) ^ ((byte & 0b000_1000) >> 1);
        let p = p0 | p1 | p2;
        proof {
            assert(p < 8) by (bit_vector)
                requires
                    p == p0 | p1 | p2,
                    p0 == ((byte & 0b000_0100) >> 2) ^ ((byte & 0b001_0000) >> 4) ^ ((byte
                        & 0b100_0000) >> 6) ^ (byte & 0b000_0001),
                    p1 == ((byte & 0b000_0100) >> 1) ^ ((byte & 0b010_0000) >> 4) ^ ((byte
                        & 0b100_0000) >> 5) ^ (byte & 0b000_0010),
                    p2 == ((byte & 0b001_0000) >> 2) ^ ((byte & 0b010_0000) >> 3) ^ ((byte
                        & 0b100_0000) >> 4) ^ ((byte & 0b000_1000) >> 1),
            ;
        }
        let correction = (1u8 << p) >> 1;
        let c = byte ^ correction;
        ((c & 0b000_0100) >> 2) | ((c & 0b111_0000) >> 3)
    }

    /// Encode each byte in place.
    pub fn encode(bytes: &mut [u8])
        ensures
            final(bytes)@.len() == old(bytes)@.len(),
            forall|k: int|
                0 <= k < final(bytes)@.len() ==> final(bytes)@[k] == spec_encode7(
                    old(bytes)@[k],
                ),
    {
        let mut i: usize = 0;
        while i < bytes.len()
            invariant
                i <= bytes@.len() == old(bytes)@.len(),
                forall|k: int| i <= k < bytes@.len() ==> bytes@[k] == old(bytes)@[k],
                forall|k: int| 0 <= k < i ==> bytes@[k] == spec_encode7(old(bytes)@[k]),
            decreases bytes@.len() - i,
        {
            let b = bytes[i];
            bytes[i] = Self::encode_byte(b);
            i = i + 1;
        }
    }

    /// Decode each byte in place, correcting a single flipped bit.
    pub fn decode(bytes: &mut [u8])
        ensures
            final(bytes)@.len() == old(bytes)@.len(),
            forall|k: int|
                0 <= k < final(bytes)@.len() ==> final(bytes)@[k] == spec_decode7(
                    old(bytes)@[k],
                ),
    {
        let mut i: usize = 0;
        while i < bytes.len()
            invariant
                i <= bytes@.len() == old(bytes)@.len(),
                forall|k: int| i <= k < bytes@.len() ==> bytes@[k] == old(bytes)@[k],
                forall|k: int| 0 <= k < i ==> bytes@[k] == spec_decode7(old(bytes)@[k]),
            decreases bytes@.len() - i,
        {
            let b = bytes[i];
            bytes[i] = Self::decode_byte(b);
            i = i + 1;
        }
    }
}


/// The defining property of the code: decoding restores the four data
/// bits, both for a clean coded byte and after flipping any single one of
/// its seven bits.
pub proof fn lemma_hc7_corrects(b: u8, k: u8)
    requires
        b < 16,
        k < 7,
    ensures
        spec_decode7(spec_encode7(b)) == b,
        spec_decode7(spec_encode7(b) ^ (1u8 << k)) == b,
{
    let t = ((b & 0xf) & 0b0001) << 2 | ((b & 0xf) & 0b1110) << 3;
    let t0 = t | (((t & 0b000_0100) >> 2) ^ ((t & 0b001_0000) >> 4) ^ ((t & 0b100_0000) >> 6));
    let t1 = t0 | (((t0 & 0b000_0100) >> 1) ^ ((t0 & 0b010_0000) >> 4) ^ ((t0 & 0b100_0000)
        >> 5));
    let e = t1 | (((t1 & 0b001_0000) >> 1) ^ ((t1 & 0b010_0000) >> 2) ^ ((t1 & 0b100_0000)
        >> 3));
    assert(e == spec_encode7(b));
    let p0 = ((e & 0b000_0100) >> 2) ^ ((e & 0b001_0000) >> 4) ^ ((e & 0b100_0000) >> 6) ^ (e
        & 0b000_0001);
    let p1 = ((e & 0b000_0100) >> 1) ^ ((e & 0b010_0000) >> 4) ^ ((e & 0b100_0000) >> 5) ^ (e
        & 0b000_0010);
    let p2 = ((e & 0b001_0000) >> 2) ^ ((e & 0b010_0000) >> 3) ^ ((e & 0b100_0000) >> 4) ^ ((e
        & 0b000_1000) >> 1);
    let p = p0 | p1 | p2;
    let c = e ^ ((1u8 << p) >> 1);
    let d = ((c & 0b000_0100) >> 2) | ((c & 0b111_0000) >> 3);
    assert(d == spec_decode7(e));
    assert(d == b) by (bit_vector)
        requires
            b < 16,
            t == ((b & 0xf) & 0b0001) << 2 | ((b & 0xf) & 0b1110) << 3,
            t0 == t | (((t & 0b000_0100) >> 2) ^ ((t & 0b001_0000) >> 4) ^ ((t & 0b100_0000)
                >> 6)),
            t1 == t0 | (((t0 & 0b000_0100) >> 1) ^ ((t0 & 0b010_0000) >> 4) ^ ((t0
                & 0b100_0000) >> 5)),
            e == t1 | (((t1 & 0b001_0000) >> 1) ^ ((t1 & 0b010_0000) >> 2) ^ ((t1 & 0b100_0000)
                >> 3)),
            p0 == ((e & 0b000_0100) >> 2) ^ ((e & 0b001_0000) >> 4) ^ ((e & 0b100_0000) >> 6)
                ^ (e & 0b000_0001),
            p1 == ((e & 0b000_0100) >> 1) ^ ((e & 0b010_0000) >> 4) ^ ((e & 0b100_0000) >> 5)
                ^ (e & 0b000_0010),
            p2 == ((e & 0b001_0000) >> 2) ^ ((e & 0b010_0000) >> 3) ^ ((e & 0b100_0000) >> 4)
                ^ ((e & 0b000_1000) >> 1),
            p == p0 | p1 | p2,
            c == e ^ ((1u8 << p) >> 1),
            d == ((c & 0b000_0100) >> 2) | ((c & 0b111_0000) >> 3),
    ;
    let f = e ^ (1u8 << k);
    let q0 = ((f & 0b000_0100) >> 2) ^ ((f & 0b001_0000) >> 4) ^ ((f & 0b100_0000) >> 6) ^ (f
        & 0b000_0001);
    let q1 = ((f & 0b000_0100) >> 1) ^ ((f & 0b010_0000) >> 4) ^ ((f & 0b100_0000) >> 5) ^ (f
        & 0b000_0010);
    let q2 = ((f & 0b001_0000) >> 2) ^ ((f & 0b010_0000) >> 3) ^ ((f & 0b100_0000) >> 4) ^ ((f
        & 0b000_1000) >> 1);
    let q = q0 | q1 | q2;
    let c2 = f ^ ((1u8 << q) >> 1);
    let d2 = ((c2 & 0b000_0100) >> 2) | ((c2 & 0b111_0000) >> 3);
    assert(d2 == spec_decode7(f));
    assert(d2 == b) by (bit_vector)
        requires
            b < 16,
            k < 7,
            t == ((b & 0xf) & 0b0001) << 2 | ((b & 0xf) & 0b1110) << 3,
            t0 == t | (((t & 0b000_0100) >> 2) ^ ((t & 0b001_0000) >> 4) ^ ((t & 0b100_0000)
                >> 6)),
            t1 == t0 | (((t0 & 0b000_0100) >> 1) ^ ((t0 & 0b010_0000) >> 4) ^ ((t0
                & 0b100_0000) >> 5)),
            e == t1 | (((t1 & 0b001_0000) >> 1) ^ ((t1 & 0b010_0000) >> 2) ^ ((t1 & 0b100_0000)
                >> 3)),
            f == e ^ (1u8 << k),
            q0 == ((f & 0b000_0100) >> 2) ^ ((f & 0b001_0000) >> 4) ^ ((f & 0b100_0000) >> 6)
                ^ (f & 0b000_0001),
            q1 == ((f & 0b000_0100) >> 1) ^ ((f & 0b010_0000) >> 4) ^ ((f & 0b100_0000) >> 5)
                ^ (f & 0b000_0010),
            q2 == ((f & 0b001_0000) >> 2) ^ ((f & 0b010_0000) >> 3) ^ ((f & 0b100_0000) >> 4)
                ^ ((f & 0b000_1000) >> 1),
            q == q0 | q1 | q2,
            c2 == f ^ ((1u8 << q) >> 1),
            d2 == ((c2 & 0b000_0100) >> 2) | ((c2 & 0b111_0000) >> 3),
    ;
}
} // verus!
