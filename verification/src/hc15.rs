//! The (15,11) Hamming code: eleven data bits spread over fifteen coded
//! bits with four parity bits, correcting any single-bit error.

use vstd::prelude::*;

verus! {

pub const PAR0: u16 = 0b000_0000_0000_0001;
pub const PAR1: u16 = 0b000_0000_0000_0010;
pub const PAR2: u16 = 0b000_0000_0000_1000;
pub const PAR3: u16 = 0b000_0000_1000_0000;
pub const MASK0: u16 = 0b101_0101_0101_0100;
pub const MASK1: u16 = 0b110_0110_0110_0100;
pub const MASK2: u16 = 0b111_1000_0111_0000;
pub const MASK3: u16 = 0b111_1111_0000_0000;

/// The number of set bits.
pub open spec fn spec_ones(x: nat) -> nat
    decreases x,
{
    if x == 0 {
        0
    } else {
        x % 2 + spec_ones(x / 2)
    }
}

/// Count set bits by halving.
fn ones(x: u16) -> (r: u32)
    ensures
        r == spec_ones(x as nat),
{
    let mut x = x;
    let mut c: u32 = 0;
    let ghost t = spec_ones(x as nat);
    proof {
        lemma_ones_bound(x as nat);
    }
    while x != 0
        invariant
            c + spec_ones(x as nat) == t,
            t <= 0xffff,
        decreases x,
    {
        proof {
            lemma_ones_bound(x as nat);
        }
        c = c + (x % 2) as u32;
        x = x / 2;
    }
    c
}

proof fn lemma_ones_bound(x: nat)
    ensures
        spec_ones(x) <= x,
    decreases x,
{
    if x > 0 {
        lemma_ones_bound(x / 2);
    }
}

/// Set the parity bit `bit` if the masked bits have odd parity.
pub open spec fn spec_parity(v: u16, mask: u16, bit: u16) -> u16 {
    if spec_ones((v & mask) as nat) % 2 == 1 {
        v | bit
    } else {
        v
    }
}

/// The coded word for an eleven-bit value.
pub open spec fn spec_encode15(b: u16) -> u16 {
    let t = ((b & 0x7ff) & 0b0001) << 2 | ((b & 0x7ff) & 0b1110) << 3 | ((b & 0x7ff) & 0x7f0)
        << 4;
    let t0 = spec_parity(t, MASK0, PAR0);
    let t1 = spec_parity(t0, MASK1, PAR1);
    let t2 = spec_parity(t1, MASK2, PAR2);
    spec_parity(t2, MASK3, PAR3)
}

/// One recomputed syndrome bit of the received word.
pub open spec fn spec_syndrome(v: u16, mask: u16, bit: u16, out: u16) -> u16 {
    if spec_ones((v & (mask | bit)) as nat) % 2 == 1 {
        out
    } else {
        0
    }
}

/// The decoded eleven-bit value: correct the position the syndrome names,
/// then collect the data bits.
pub open spec fn spec_decode15(b: u16) -> u16 {
    let p = spec_syndrome(b, MASK0, PAR0, 0x1) | spec_syndrome(b, MASK1, PAR1, 0x2)
        | spec_syndrome(b, MASK2, PAR2, 0x4) | spec_syndrome(b, MASK3, PAR3, 0x8);
    let c = b ^ ((1u16 << p) >> 1);
    ((c & 0b000_0100) >> 2) | ((c & 0b111_0000) >> 3) | ((c & 0x7f00) >> 4)
}


/// The parity of the set bits equals the xor-fold of the word.
pub(crate) proof fn lemma_ones_parity(y: u16)
    ensures
        spec_ones(y as nat) % 2 == ((y ^ (y >> 1) ^ (y >> 2) ^ (y >> 3) ^ (y >> 4) ^ (y >> 5) ^ (
        y >> 6) ^ (y >> 7) ^ (y >> 8) ^ (y >> 9) ^ (y >> 10) ^ (y >> 11) ^ (y >> 12) ^ (y >> 13)
            ^ (y >> 14) ^ (y >> 15)) & 1) as nat,
{
    let y0 = y;
    let y1 = y0 / 2;
    let y2 = y1 / 2;
    let y3 = y2 / 2;
    let y4 = y3 / 2;
    let y5 = y4 / 2;
    let y6 = y5 / 2;
    let y7 = y6 / 2;
    let y8 = y7 / 2;
    let y9 = y8 / 2;
    let y10 = y9 / 2;
    let y11 = y10 / 2;
    let y12 = y11 / 2;
    let y13 = y12 / 2;
    let y14 = y13 / 2;
    let y15 = y14 / 2;
    assert(y15 / 2 == 0) by (bit_vector)
        requires
            y1 == y0 / 2 && y2 == y1 / 2 && y3 == y2 / 2 && y4 == y3 / 2 && y5 == y4 / 2 && y6
                == y5 / 2 && y7 == y6 / 2 && y8 == y7 / 2 && y9 == y8 / 2 && y10 == y9 / 2 && y11
                == y10 / 2 && y12 == y11 / 2 && y13 == y12 / 2 && y14 == y13 / 2 && y15 == y14
                / 2,
    ;
    assert(spec_ones(y15 as nat / 2) == 0);
    assert(spec_ones(y0 as nat) == y0 % 2 + spec_ones(y1 as nat));
    assert(spec_ones(y1 as nat) == y1 % 2 + spec_ones(y2 as nat));
    assert(spec_ones(y2 as nat) == y2 % 2 + spec_ones(y3 as nat));
    assert(spec_ones(y3 as nat) == y3 % 2 + spec_ones(y4 as nat));
    assert(spec_ones(y4 as nat) == y4 % 2 + spec_ones(y5 as nat));
    assert(spec_ones(y5 as nat) == y5 % 2 + spec_ones(y6 as nat));
    assert(spec_ones(y6 as nat) == y6 % 2 + spec_ones(y7 as nat));
    assert(spec_ones(y7 as nat) == y7 % 2 + spec_ones(y8 as nat));
    assert(spec_ones(y8 as nat) == y8 % 2 + spec_ones(y9 as nat));
    assert(spec_ones(y9 as nat) == y9 % 2 + spec_ones(y10 as nat));
    assert(spec_ones(y10 as nat) == y10 % 2 + spec_ones(y11 as nat));
    assert(spec_ones(y11 as nat) == y11 % 2 + spec_ones(y12 as nat));
    assert(spec_ones(y12 as nat) == y12 % 2 + spec_ones(y13 as nat));
    assert(spec_ones(y13 as nat) == y13 % 2 + spec_ones(y14 as nat));
    assert(spec_ones(y14 as nat) == y14 % 2 + spec_ones(y15 as nat));
    assert(spec_ones(y15 as nat) == y15 % 2 + spec_ones(y15 as nat / 2));
    assert(spec_ones(y as nat) == (y0 % 2) + (y1 % 2) + (y2 % 2) + (y3 % 2) + (y4 % 2) + (y5 % 2)
        + (y6 % 2) + (y7 % 2) + (y8 % 2) + (y9 % 2) + (y10 % 2) + (y11 % 2) + (y12 % 2) + (y13
        % 2) + (y14 % 2) + (y15 % 2));
    assert(((y0 % 2) + (y1 % 2) + (y2 % 2) + (y3 % 2) + (y4 % 2) + (y5 % 2) + (y6 % 2) + (y7 % 2)
        + (y8 % 2) + (y9 % 2) + (y10 % 2) + (y11 % 2) + (y12 % 2) + (y13 % 2) + (y14 % 2) + (y15
        % 2)) % 2 == ((y0 ^ (y0 >> 1) ^ (y0 >> 2) ^ (y0 >> 3) ^ (y0 >> 4) ^ (y0 >> 5) ^ (y0 >> 6)
        ^ (y0 >> 7) ^ (y0 >> 8) ^ (y0 >> 9) ^ (y0 >> 10) ^ (y0 >> 11) ^ (y0 >> 12) ^ (y0 >> 13)
        ^ (y0 >> 14) ^ (y0 >> 15)) & 1)) by (bit_vector)
        requires
            y1 == y0 / 2 && y2 == y1 / 2 && y3 == y2 / 2 && y4 == y3 / 2 && y5 == y4 / 2 && y6
                == y5 / 2 && y7 == y6 / 2 && y8 == y7 / 2 && y9 == y8 / 2 && y10 == y9 / 2 && y11
                == y10 / 2 && y12 == y11 / 2 && y13 == y12 / 2 && y14 == y13 / 2 && y15 == y14
                / 2,
    ;
}

pub struct HammingCode15;

impl HammingCode15 {
    fn parity_set(v: u16, mask: u16, bit: u16) -> (r: u16)
        ensures
            r == spec_parity(v, mask, bit),
    {
        let m = ones(v & mask);
        if m % 2 == 1 {
            v | bit
        } else {
            v
        }
    }

    fn syndrome(v: u16, mask: u16, bit: u16, out: u16) -> (r: u16)
        ensures
            r == spec_syndrome(v, mask, bit, out),
    {
        let m = ones(v & (mask | bit));
        if m % 2 == 1 {
            out
        } else {
            0
        }
    }

    fn encode_word(byte: u16) -> (r: u16)
        ensures
            r == spec_encode15(byte),
    {
        let b = byte & 0x7ff;
        let byte0 = (b & 0b0001) << 2;
        let byte1 = (b & 0b1110) << 3;
        let byte2 = (b & 0x7f0) << 4;
        let t = byte0 | byte1 | byte2;
        let t0 = Self::parity_set(t, MASK0, PAR0);
        let t1 = Self::parity_set(t0, MASK1, PAR1);
        let t2 = Self::parity_set(t1, MASK2, PAR2);
        Self::parity_set(t2, MASK3, PAR3)
    }

    fn decode_word(byte: u16) -> (r: u16)
        ensures
            r == spec_decode15(byte),
    {
        let p0 = Self::syndrome(byte, MASK0, PAR0, 0x1);
        let p1 = Self::syndrome(byte, MASK1, PAR1, 0x2);
        let p2 = Self::syndrome(byte, MASK2, PAR2, 0x4);
        let p3 = Self::syndrome(byte, MASK3, PAR3, 0x8);
        let p = p0 | p1 | p2 | p3;
        proof {
            assert(p < 16) by (bit_vector)
                requires
                    p == p0 | p1 | p2 | p3,
                    p0 == 0 || p0 == 0x1,
                    p1 == 0 || p1 == 0x2,
                    p2 == 0 || p2 == 0x4,
                    p3 == 0 || p3 == 0x8,
            ;
        }
        let correction = (1u16 << p) >> 1;
        let c = byte ^ correction;
        ((c & 0b000_0100) >> 2) | ((c & 0b111_0000) >> 3) | ((c & 0x7f00) >> 4)
    }

    /// Encode each word in place.
    pub fn encode(bytes: &mut [u16])
        ensures
            final(bytes)@.len() == old(bytes)@.len(),
            forall|k: int|
                0 <= k < final(bytes)@.len() ==> final(bytes)@[k] == spec_encode15(
                    old(bytes)@[k],
                ),
    {
        let mut i: usize = 0;
        while i < bytes.len()
            invariant
                i <= bytes@.len() == old(bytes)@.len(),
                forall|k: int| i <= k < bytes@.len() ==> bytes@[k] == old(bytes)@[k],
                forall|k: int| 0 <= k < i ==> bytes@[k] == spec_encode15(old(bytes)@[k]),
            decreases bytes@.len() - i,
        {
            let b = bytes[i];
            bytes[i] = Self::encode_word(b);
            i = i + 1;
        }
    }

    /// Decode each word in place, correcting a single flipped bit.
    pub fn decode(bytes: &mut [u16])
        ensures
            final(bytes)@.len() == old(bytes)@.len(),
            forall|k: int|
                0 <= k < final(bytes)@.len() ==> final(bytes)@[k] == spec_decode15(
                    old(bytes)@[k],
                ),
    {
        let mut i: usize = 0;
        while i < bytes.len()
            invariant
                i <= bytes@.len() == old(bytes)@.len(),
                forall|k: int| i <= k < bytes@.len() ==> bytes@[k] == old(bytes)@[k],
                forall|k: int| 0 <= k < i ==> bytes@[k] == spec_decode15(old(bytes)@[k]),
            decreases bytes@.len() - i,
        {
            let b = bytes[i];
            bytes[i] = Self::decode_word(b);
            i = i + 1;
        }
    }
}


/// The defining property of the code: decoding restores the eleven data
/// bits, both for a clean coded word and after flipping any single one of
/// its fifteen bits.
#[verifier::rlimit(100)]
#[verifier::spinoff_prover]
pub proof fn lemma_hc15_corrects(b: u16, k: u16)
    requires
        b < 0x800,
        k < 15,
    ensures
        spec_decode15(spec_encode15(b)) == b,
        spec_decode15(spec_encode15(b) ^ (1u16 << k)) == b,
{
    let t = ((b & 0x7ff) & 0b0001) << 2 | ((b & 0x7ff) & 0b1110) << 3 | ((b & 0x7ff) & 0x7f0) << 4;
    let t0 = spec_parity(t, MASK0, PAR0);
    lemma_ones_parity((t & MASK0) as u16);
    assert(t0 == (if (((t & 0b101_0101_0101_0100) ^ ((t & 0b101_0101_0101_0100) >> 1) ^ ((t & 0b101_0101_0101_0100) >> 2) ^ ((t & 0b101_0101_0101_0100) >> 3) ^ ((t & 0b101_0101_0101_0100) >> 4) ^ ((t & 0b101_0101_0101_0100) >> 5) ^ ((t & 0b101_0101_0101_0100) >> 6) ^ ((t & 0b101_0101_0101_0100) >> 7) ^ ((t & 0b101_0101_0101_0100) >> 8) ^ ((t & 0b101_0101_0101_0100) >> 9) ^ ((t & 0b101_0101_0101_0100) >> 10) ^ ((t & 0b101_0101_0101_0100) >> 11) ^ ((t & 0b101_0101_0101_0100) >> 12) ^ ((t & 0b101_0101_0101_0100) >> 13) ^ ((t & 0b101_0101_0101_0100) >> 14) ^ ((t & 0b101_0101_0101_0100) >> 15)) & 1) == 1 {
        t | 0b000_0000_0000_0001
    } else {
        t
    }));
    let t1 = spec_parity(t0, MASK1, PAR1);
    lemma_ones_parity((t0 & MASK1) as u16);
    assert(t1 == (if (((t0 & 0b110_0110_0110_0100) ^ ((t0 & 0b110_0110_0110_0100) >> 1) ^ ((t0 & 0b110_0110_0110_0100) >> 2) ^ ((t0 & 0b110_0110_0110_0100) >> 3) ^ ((t0 & 0b110_0110_0110_0100) >> 4) ^ ((t0 & 0b110_0110_0110_0100) >> 5) ^ ((t0 & 0b110_0110_0110_0100) >> 6) ^ ((t0 & 0b110_0110_0110_0100) >> 7) ^ ((t0 & 0b110_0110_0110_0100) >> 8) ^ ((t0 & 0b110_0110_0110_0100) >> 9) ^ ((t0 & 0b110_0110_0110_0100) >> 10) ^ ((t0 & 0b110_0110_0110_0100) >> 11) ^ ((t0 & 0b110_0110_0110_0100) >> 12) ^ ((t0 & 0b110_0110_0110_0100) >> 13) ^ ((t0 & 0b110_0110_0110_0100) >> 14) ^ ((t0 & 0b110_0110_0110_0100) >> 15)) & 1) == 1 {
        t0 | 0b000_0000_0000_0010
    } else {
        t0
    }));
    let t2 = spec_parity(t1, MASK2, PAR2);
    lemma_ones_parity((t1 & MASK2) as u16);
    assert(t2 == (if (((t1 & 0b111_1000_0111_0000) ^ ((t1 & 0b111_1000_0111_0000) >> 1) ^ ((t1 & 0b111_1000_0111_0000) >> 2) ^ ((t1 & 0b111_1000_0111_0000) >> 3) ^ ((t1 & 0b111_1000_0111_0000) >> 4) ^ ((t1 & 0b111_1000_0111_0000) >> 5) ^ ((t1 & 0b111_1000_0111_0000) >> 6) ^ ((t1 & 0b111_1000_0111_0000) >> 7) ^ ((t1 & 0b111_1000_0111_0000) >> 8) ^ ((t1 & 0b111_1000_0111_0000) >> 9) ^ ((t1 & 0b111_1000_0111_0000) >> 10) ^ ((t1 & 0b111_1000_0111_0000) >> 11) ^ ((t1 & 0b111_1000_0111_0000) >> 12) ^ ((t1 & 0b111_1000_0111_0000) >> 13) ^ ((t1 & 0b111_1000_0111_0000) >> 14) ^ ((t1 & 0b111_1000_0111_0000) >> 15)) & 1) == 1 {
        t1 | 0b000_0000_0000_1000
    } else {
        t1
    }));
    let t3 = spec_parity(t2, MASK3, PAR3);
    lemma_ones_parity((t2 & MASK3) as u16);
    assert(t3 == (if (((t2 & 0b111_1111_0000_0000) ^ ((t2 & 0b111_1111_0000_0000) >> 1) ^ ((t2 & 0b111_1111_0000_0000) >> 2) ^ ((t2 & 0b111_1111_0000_0000) >> 3) ^ ((t2 & 0b111_1111_0000_0000) >> 4) ^ ((t2 & 0b111_1111_0000_0000) >> 5) ^ ((t2 & 0b111_1111_0000_0000) >> 6) ^ ((t2 & 0b111_1111_0000_0000) >> 7) ^ ((t2 & 0b111_1111_0000_0000) >> 8) ^ ((t2 & 0b111_1111_0000_0000) >> 9) ^ ((t2 & 0b111_1111_0000_0000) >> 10) ^ ((t2 & 0b111_1111_0000_0000) >> 11) ^ ((t2 & 0b111_1111_0000_0000) >> 12) ^ ((t2 & 0b111_1111_0000_0000) >> 13) ^ ((t2 & 0b111_1111_0000_0000) >> 14) ^ ((t2 & 0b111_1111_0000_0000) >> 15)) & 1) == 1 {
        t2 | 0b000_0000_1000_0000
    } else {
        t2
    }));
    let e = t3;
    assert(e == spec_encode15(b));
    let s0 = spec_syndrome(t3, MASK0, PAR0, 0x1);
    lemma_ones_parity((t3 & (MASK0 | PAR0)) as u16);
    assert(s0 == (if (((t3 & (0b101_0101_0101_0100u16 | 0b000_0000_0000_0001)) ^ ((t3 & (0b101_0101_0101_0100u16 | 0b000_0000_0000_0001)) >> 1) ^ ((t3 & (0b101_0101_0101_0100u16 | 0b000_0000_0000_0001)) >> 2) ^ ((t3 & (0b101_0101_0101_0100u16 | 0b000_0000_0000_0001)) >> 3) ^ ((t3 & (0b101_0101_0101_0100u16 | 0b000_0000_0000_0001)) >> 4) ^ ((t3 & (0b101_0101_0101_0100u16 | 0b000_0000_0000_0001)) >> 5) ^ ((t3 & (0b101_0101_0101_0100u16 | 0b000_0000_0000_0001)) >> 6) ^ ((t3 & (0b101_0101_0101_0100u16 | 0b000_0000_0000_0001)) >> 7) ^ ((t3 & (0b101_0101_0101_0100u16 | 0b000_0000_0000_0001)) >> 8) ^ ((t3 & (0b101_0101_0101_0100u16 | 0b000_0000_0000_0001)) >> 9) ^ ((t3 & (0b101_0101_0101_0100u16 | 0b000_0000_0000_0001)) >> 10) ^ ((t3 & (0b101_0101_0101_0100u16 | 0b000_0000_0000_0001)) >> 11) ^ ((t3 & (0b101_0101_0101_0100u16 | 0b000_0000_0000_0001)) >> 12) ^ ((t3 & (0b101_0101_0101_0100u16 | 0b000_0000_0000_0001)) >> 13) ^ ((t3 & (0b101_0101_0101_0100u16 | 0b000_0000_0000_0001)) >> 14) ^ ((t3 & (0b101_0101_0101_0100u16 | 0b000_0000_0000_0001)) >> 15)) & 1) == 1 {
        0x1u16
    } else {
        0u16
    }));
    let s1 = spec_syndrome(t3, MASK1, PAR1, 0x2);
    lemma_ones_parity((t3 & (MASK1 | PAR1)) as u16);
    assert(s1 == (if (((t3 & (0b110_0110_0110_0100u16 | 0b000_0000_0000_0010)) ^ ((t3 & (0b110_0110_0110_0100u16 | 0b000_0000_0000_0010)) >> 1) ^ ((t3 & (0b110_0110_0110_0100u16 | 0b000_0000_0000_0010)) >> 2) ^ ((t3 & (0b110_0110_0110_0100u16 | 0b000_0000_0000_0010)) >> 3) ^ ((t3 & (0b110_0110_0110_0100u16 | 0b000_0000_0000_0010)) >> 4) ^ ((t3 & (0b110_0110_0110_0100u16 | 0b000_0000_0000_0010)) >> 5) ^ ((t3 & (0b110_0110_0110_0100u16 | 0b000_0000_0000_0010)) >> 6) ^ ((t3 & (0b110_0110_0110_0100u16 | 0b000_0000_0000_0010)) >> 7) ^ ((t3 & (0b110_0110_0110_0100u16 | 0b000_0000_0000_0010)) >> 8) ^ ((t3 & (0b110_0110_0110_0100u16 | 0b000_0000_0000_0010)) >> 9) ^ ((t3 & (0b110_0110_0110_0100u16 | 0b000_0000_0000_0010)) >> 10) ^ ((t3 & (0b110_0110_0110_0100u16 | 0b000_0000_0000_0010)) >> 11) ^ ((t3 & (0b110_0110_0110_0100u16 | 0b000_0000_0000_0010)) >> 12) ^ ((t3 & (0b110_0110_0110_0100u16 | 0b000_0000_0000_0010)) >> 13) ^ ((t3 & (0b110_0110_0110_0100u16 | 0b000_0000_0000_0010)) >> 14) ^ ((t3 & (0b110_0110_0110_0100u16 | 0b000_0000_0000_0010)) >> 15)) & 1) == 1 {
        0x2u16
    } else {
        0u16
    }));
    let s2 = spec_syndrome(t3, MASK2, PAR2, 0x4);
    lemma_ones_parity((t3 & (MASK2 | PAR2)) as u16);
    assert(s2 == (if (((t3 & (0b111_1000_0111_0000u16 | 0b000_0000_0000_1000)) ^ ((t3 & (0b111_1000_0111_0000u16 | 0b000_0000_0000_1000)) >> 1) ^ ((t3 & (0b111_1000_0111_0000u16 | 0b000_0000_0000_1000)) >> 2) ^ ((t3 & (0b111_1000_0111_0000u16 | 0b000_0000_0000_1000)) >> 3) ^ ((t3 & (0b111_1000_0111_0000u16 | 0b000_0000_0000_1000)) >> 4) ^ ((t3 & (0b111_1000_0111_0000u16 | 0b000_0000_0000_1000)) >> 5) ^ ((t3 & (0b111_1000_0111_0000u16 | 0b000_0000_0000_1000)) >> 6) ^ ((t3 & (0b111_1000_0111_0000u16 | 0b000_0000_0000_1000)) >> 7) ^ ((t3 & (0b111_1000_0111_0000u16 | 0b000_0000_0000_1000)) >> 8) ^ ((t3 & (0b111_1000_0111_0000u16 | 0b000_0000_0000_1000)) >> 9) ^ ((t3 & (0b111_1000_0111_0000u16 | 0b000_0000_0000_1000)) >> 10) ^ ((t3 & (0b111_1000_0111_0000u16 | 0b000_0000_0000_1000)) >> 11) ^ ((t3 & (0b111_1000_0111_0000u16 | 0b000_0000_0000_1000)) >> 12) ^ ((t3 & (0b111_1000_0111_0000u16 | 0b000_0000_0000_1000)) >> 13) ^ ((t3 & (0b111_1000_0111_0000u16 | 0b000_0000_0000_1000)) >> 14) ^ ((t3 & (0b111_1000_0111_0000u16 | 0b000_0000_0000_1000)) >> 15)) & 1) == 1 {
        0x4u16
    } else {
        0u16
    }));
    let s3 = spec_syndrome(t3, MASK3, PAR3, 0x8);
    lemma_ones_parity((t3 & (MASK3 | PAR3)) as u16);
    assert(s3 == (if (((t3 & (0b111_1111_0000_0000u16 | 0b000_0000_1000_0000)) ^ ((t3 & (0b111_1111_0000_0000u16 | 0b000_0000_1000_0000)) >> 1) ^ ((t3 & (0b111_1111_0000_0000u16 | 0b000_0000_1000_0000)) >> 2) ^ ((t3 & (0b111_1111_0000_0000u16 | 0b000_0000_1000_0000)) >> 3) ^ ((t3 & (0b111_1111_0000_0000u16 | 0b000_0000_1000_0000)) >> 4) ^ ((t3 & (0b111_1111_0000_0000u16 | 0b000_0000_1000_0000)) >> 5) ^ ((t3 & (0b111_1111_0000_0000u16 | 0b000_0000_1000_0000)) >> 6) ^ ((t3 & (0b111_1111_0000_0000u16 | 0b000_0000_1000_0000)) >> 7) ^ ((t3 & (0b111_1111_0000_0000u16 | 0b000_0000_1000_0000)) >> 8) ^ ((t3 & (0b111_1111_0000_0000u16 | 0b000_0000_1000_0000)) >> 9) ^ ((t3 & (0b111_1111_0000_0000u16 | 0b000_0000_1000_0000)) >> 10) ^ ((t3 & (0b111_1111_0000_0000u16 | 0b000_0000_1000_0000)) >> 11) ^ ((t3 & (0b111_1111_0000_0000u16 | 0b000_0000_1000_0000)) >> 12) ^ ((t3 & (0b111_1111_0000_0000u16 | 0b000_0000_1000_0000)) >> 13) ^ ((t3 & (0b111_1111_0000_0000u16 | 0b000_0000_1000_0000)) >> 14) ^ ((t3 & (0b111_1111_0000_0000u16 | 0b000_0000_1000_0000)) >> 15)) & 1) == 1 {
        0x8u16
    } else {
        0u16
    }));
    let sq = s0 | s1 | s2 | s3;
    let sc = t3 ^ ((1u16 << sq) >> 1);
    let sd = ((sc & 0b000_0100) >> 2) | ((sc & 0b111_0000) >> 3) | ((sc & 0x7f00) >> 4);
    assert(sd == spec_decode15(t3));
    assert(sd == b) by (bit_vector)
        requires
            b < 0x800,
            t == ((b & 0x7ff) & 0b0001) << 2 | ((b & 0x7ff) & 0b1110) << 3 | ((b & 0x7ff) & 0x7f0) << 4,
            t0 == (if (((t & 0b101_0101_0101_0100) ^ ((t & 0b101_0101_0101_0100) >> 1) ^ ((t & 0b101_0101_0101_0100) >> 2) ^ ((t & 0b101_0101_0101_0100) >> 3) ^ ((t & 0b101_0101_0101_0100) >> 4) ^ ((t & 0b101_0101_0101_0100) >> 5) ^ ((t & 0b101_0101_0101_0100) >> 6) ^ ((t & 0b101_0101_0101_0100) >> 7) ^ ((t & 0b101_0101_0101_0100) >> 8) ^ ((t & 0b101_0101_0101_0100) >> 9) ^ ((t & 0b101_0101_0101_0100) >> 10) ^ ((t & 0b101_0101_0101_0100) >> 11) ^ ((t & 0b101_0101_0101_0100) >> 12) ^ ((t & 0b101_0101_0101_0100) >> 13) ^ ((t & 0b101_0101_0101_0100) >> 14) ^ ((t & 0b101_0101_0101_0100) >> 15)) & 1) == 1 { t | 0b000_0000_0000_0001 } else { t }),
            t1 == (if (((t0 & 0b110_0110_0110_0100) ^ ((t0 & 0b110_0110_0110_0100) >> 1) ^ ((t0 & 0b110_0110_0110_0100) >> 2) ^ ((t0 & 0b110_0110_0110_0100) >> 3) ^ ((t0 & 0b110_0110_0110_0100) >> 4) ^ ((t0 & 0b110_0110_0110_0100) >> 5) ^ ((t0 & 0b110_0110_0110_0100) >> 6) ^ ((t0 & 0b110_0110_0110_0100) >> 7) ^ ((t0 & 0b110_0110_0110_0100) >> 8) ^ ((t0 & 0b110_0110_0110_0100) >> 9) ^ ((t0 & 0b110_0110_0110_0100) >> 10) ^ ((t0 & 0b110_0110_0110_0100) >> 11) ^ ((t0 & 0b110_0110_0110_0100) >> 12) ^ ((t0 & 0b110_0110_0110_0100) >> 13) ^ ((t0 & 0b110_0110_0110_0100) >> 14) ^ ((t0 & 0b110_0110_0110_0100) >> 15)) & 1) == 1 { t0 | 0b000_0000_0000_0010 } else { t0 }),
            t2 == (if (((t1 & 0b111_1000_0111_0000) ^ ((t1 & 0b111_1000_0111_0000) >> 1) ^ ((t1 & 0b111_1000_0111_0000) >> 2) ^ ((t1 & 0b111_1000_0111_0000) >> 3) ^ ((t1 & 0b111_1000_0111_0000) >> 4) ^ ((t1 & 0b111_1000_0111_0000) >> 5) ^ ((t1 & 0b111_1000_0111_0000) >> 6) ^ ((t1 & 0b111_1000_0111_0000) >> 7) ^ ((t1 & 0b111_1000_0111_0000) >> 8) ^ ((t1 & 0b111_1000_0111_0000) >> 9) ^ ((t1 & 0b111_1000_0111_0000) >> 10) ^ ((t1 & 0b111_1000_0111_0000) >> 11) ^ ((t1 & 0b111_1000_0111_0000) >> 12) ^ ((t1 & 0b111_1000_0111_0000) >> 13) ^ ((t1 & 0b111_1000_0111_0000) >> 14) ^ ((t1 & 0b111_1000_0111_0000) >> 15)) & 1) == 1 { t1 | 0b000_0000_0000_1000 } else { t1 }),
            t3 == (if (((t2 & 0b111_1111_0000_0000) ^ ((t2 & 0b111_1111_0000_0000) >> 1) ^ ((t2 & 0b111_1111_0000_0000) >> 2) ^ ((t2 & 0b111_1111_0000_0000) >> 3) ^ ((t2 & 0b111_1111_0000_0000) >> 4) ^ ((t2 & 0b111_1111_0000_0000) >> 5) ^ ((t2 & 0b111_1111_0000_0000) >> 6) ^ ((t2 & 0b111_1111_0000_0000) >> 7) ^ ((t2 & 0b111_1111_0000_0000) >> 8) ^ ((t2 & 0b111_1111_0000_0000) >> 9) ^ ((t2 & 0b111_1111_0000_0000) >> 10) ^ ((t2 & 0b111_1111_0000_0000) >> 11) ^ ((t2 & 0b111_1111_0000_0000) >> 12) ^ ((t2 & 0b111_1111_0000_0000) >> 13) ^ ((t2 & 0b111_1111_0000_0000) >> 14) ^ ((t2 & 0b111_1111_0000_0000) >> 15)) & 1) == 1 { t2 | 0b000_0000_1000_0000 } else { t2 }),
            s0 == (if (((t3 & (0b101_0101_0101_0100u16 | 0b000_0000_0000_0001)) ^ ((t3 & (0b101_0101_0101_0100u16 | 0b000_0000_0000_0001)) >> 1) ^ ((t3 & (0b101_0101_0101_0100u16 | 0b000_0000_0000_0001)) >> 2) ^ ((t3 & (0b101_0101_0101_0100u16 | 0b000_0000_0000_0001)) >> 3) ^ ((t3 & (0b101_0101_0101_0100u16 | 0b000_0000_0000_0001)) >> 4) ^ ((t3 & (0b101_0101_0101_0100u16 | 0b000_0000_0000_0001)) >> 5) ^ ((t3 & (0b101_0101_0101_0100u16 | 0b000_0000_0000_0001)) >> 6) ^ ((t3 & (0b101_0101_0101_0100u16 | 0b000_0000_0000_0001)) >> 7) ^ ((t3 & (0b101_0101_0101_0100u16 | 0b000_0000_0000_0001)) >> 8) ^ ((t3 & (0b101_0101_0101_0100u16 | 0b000_0000_0000_0001)) >> 9) ^ ((t3 & (0b101_0101_0101_0100u16 | 0b000_0000_0000_0001)) >> 10) ^ ((t3 & (0b101_0101_0101_0100u16 | 0b000_0000_0000_0001)) >> 11) ^ ((t3 & (0b101_0101_0101_0100u16 | 0b000_0000_0000_0001)) >> 12) ^ ((t3 & (0b101_0101_0101_0100u16 | 0b000_0000_0000_0001)) >> 13) ^ ((t3 & (0b101_0101_0101_0100u16 | 0b000_0000_0000_0001)) >> 14) ^ ((t3 & (0b101_0101_0101_0100u16 | 0b000_0000_0000_0001)) >> 15)) & 1) == 1 { 0x1u16 } else { 0u16 }),
            s1 == (if (((t3 & (0b110_0110_0110_0100u16 | 0b000_0000_0000_0010)) ^ ((t3 & (0b110_0110_0110_0100u16 | 0b000_0000_0000_0010)) >> 1) ^ ((t3 & (0b110_0110_0110_0100u16 | 0b000_0000_0000_0010)) >> 2) ^ ((t3 & (0b110_0110_0110_0100u16 | 0b000_0000_0000_0010)) >> 3) ^ ((t3 & (0b110_0110_0110_0100u16 | 0b000_0000_0000_0010)) >> 4) ^ ((t3 & (0b110_0110_0110_0100u16 | 0b000_0000_0000_0010)) >> 5) ^ ((t3 & (0b110_0110_0110_0100u16 | 0b000_0000_0000_0010)) >> 6) ^ ((t3 & (0b110_0110_0110_0100u16 | 0b000_0000_0000_0010)) >> 7) ^ ((t3 & (0b110_0110_0110_0100u16 | 0b000_0000_0000_0010)) >> 8) ^ ((t3 & (0b110_0110_0110_0100u16 | 0b000_0000_0000_0010)) >> 9) ^ ((t3 & (0b110_0110_0110_0100u16 | 0b000_0000_0000_0010)) >> 10) ^ ((t3 & (0b110_0110_0110_0100u16 | 0b000_0000_0000_0010)) >> 11) ^ ((t3 & (0b110_0110_0110_0100u16 | 0b000_0000_0000_0010)) >> 12) ^ ((t3 & (0b110_0110_0110_0100u16 | 0b000_0000_0000_0010)) >> 13) ^ ((t3 & (0b110_0110_0110_0100u16 | 0b000_0000_0000_0010)) >> 14) ^ ((t3 & (0b110_0110_0110_0100u16 | 0b000_0000_0000_0010)) >> 15)) & 1) == 1 { 0x2u16 } else { 0u16 }),
            s2 == (if (((t3 & (0b111_1000_0111_0000u16 | 0b000_0000_0000_1000)) ^ ((t3 & (0b111_1000_0111_0000u16 | 0b000_0000_0000_1000)) >> 1) ^ ((t3 & (0b111_1000_0111_0000u16 | 0b000_0000_0000_1000)) >> 2) ^ ((t3 & (0b111_1000_0111_0000u16 | 0b000_0000_0000_1000)) >> 3) ^ ((t3 & (0b111_1000_0111_0000u16 | 0b000_0000_0000_1000)) >> 4) ^ ((t3 & (0b111_1000_0111_0000u16 | 0b000_0000_0000_1000)) >> 5) ^ ((t3 & (0b111_1000_0111_0000u16 | 0b000_0000_0000_1000)) >> 6) ^ ((t3 & (0b111_1000_0111_0000u16 | 0b000_0000_0000_1000)) >> 7) ^ ((t3 & (0b111_1000_0111_0000u16 | 0b000_0000_0000_1000)) >> 8) ^ ((t3 & (0b111_1000_0111_0000u16 | 0b000_0000_0000_1000)) >> 9) ^ ((t3 & (0b111_1000_0111_0000u16 | 0b000_0000_0000_1000)) >> 10) ^ ((t3 & (0b111_1000_0111_0000u16 | 0b000_0000_0000_1000)) >> 11) ^ ((t3 & (0b111_1000_0111_0000u16 | 0b000_0000_0000_1000)) >> 12) ^ ((t3 & (0b111_1000_0111_0000u16 | 0b000_0000_0000_1000)) >> 13) ^ ((t3 & (0b111_1000_0111_0000u16 | 0b000_0000_0000_1000)) >> 14) ^ ((t3 & (0b111_1000_0111_0000u16 | 0b000_0000_0000_1000)) >> 15)) & 1) == 1 { 0x4u16 } else { 0u16 }),
            s3 == (if (((t3 & (0b111_1111_0000_0000u16 | 0b000_0000_1000_0000)) ^ ((t3 & (0b111_1111_0000_0000u16 | 0b000_0000_1000_0000)) >> 1) ^ ((t3 & (0b111_1111_0000_0000u16 | 0b000_0000_1000_0000)) >> 2) ^ ((t3 & (0b111_1111_0000_0000u16 | 0b000_0000_1000_0000)) >> 3) ^ ((t3 & (0b111_1111_0000_0000u16 | 0b000_0000_1000_0000)) >> 4) ^ ((t3 & (0b111_1111_0000_0000u16 | 0b000_0000_1000_0000)) >> 5) ^ ((t3 & (0b111_1111_0000_0000u16 | 0b000_0000_1000_0000)) >> 6) ^ ((t3 & (0b111_1111_0000_0000u16 | 0b000_0000_1000_0000)) >> 7) ^ ((t3 & (0b111_1111_0000_0000u16 | 0b000_0000_1000_0000)) >> 8) ^ ((t3 & (0b111_1111_0000_0000u16 | 0b000_0000_1000_0000)) >> 9) ^ ((t3 & (0b111_1111_0000_0000u16 | 0b000_0000_1000_0000)) >> 10) ^ ((t3 & (0b111_1111_0000_0000u16 | 0b000_0000_1000_0000)) >> 11) ^ ((t3 & (0b111_1111_0000_0000u16 | 0b000_0000_1000_0000)) >> 12) ^ ((t3 & (0b111_1111_0000_0000u16 | 0b000_0000_1000_0000)) >> 13) ^ ((t3 & (0b111_1111_0000_0000u16 | 0b000_0000_1000_0000)) >> 14) ^ ((t3 & (0b111_1111_0000_0000u16 | 0b000_0000_1000_0000)) >> 15)) & 1) == 1 { 0x8u16 } else { 0u16 }),
            sq == s0 | s1 | s2 | s3,
            sc == t3 ^ ((1u16 << sq) >> 1),
            sd == ((sc & 0b000_0100) >> 2) | ((sc & 0b111_0000) >> 3) | ((sc & 0x7f00) >> 4),
    ;
    let f = t3 ^ (1u16 << k);
    let u0 = spec_syndrome(f, MASK0, PAR0, 0x1);
    lemma_ones_parity((f & (MASK0 | PAR0)) as u16);
    assert(u0 == (if (((f & (0b101_0101_0101_0100u16 | 0b000_0000_0000_0001)) ^ ((f & (0b101_0101_0101_0100u16 | 0b000_0000_0000_0001)) >> 1) ^ ((f & (0b101_0101_0101_0100u16 | 0b000_0000_0000_0001)) >> 2) ^ ((f & (0b101_0101_0101_0100u16 | 0b000_0000_0000_0001)) >> 3) ^ ((f & (0b101_0101_0101_0100u16 | 0b000_0000_0000_0001)) >> 4) ^ ((f & (0b101_0101_0101_0100u16 | 0b000_0000_0000_0001)) >> 5) ^ ((f & (0b101_0101_0101_0100u16 | 0b000_0000_0000_0001)) >> 6) ^ ((f & (0b101_0101_0101_0100u16 | 0b000_0000_0000_0001)) >> 7) ^ ((f & (0b101_0101_0101_0100u16 | 0b000_0000_0000_0001)) >> 8) ^ ((f & (0b101_0101_0101_0100u16 | 0b000_0000_0000_0001)) >> 9) ^ ((f & (0b101_0101_0101_0100u16 | 0b000_0000_0000_0001)) >> 10) ^ ((f & (0b101_0101_0101_0100u16 | 0b000_0000_0000_0001)) >> 11) ^ ((f & (0b101_0101_0101_0100u16 | 0b000_0000_0000_0001)) >> 12) ^ ((f & (0b101_0101_0101_0100u16 | 0b000_0000_0000_0001)) >> 13) ^ ((f & (0b101_0101_0101_0100u16 | 0b000_0000_0000_0001)) >> 14) ^ ((f & (0b101_0101_0101_0100u16 | 0b000_0000_0000_0001)) >> 15)) & 1) == 1 {
        0x1u16
    } else {
        0u16
    }));
    let u1 = spec_syndrome(f, MASK1, PAR1, 0x2);
    lemma_ones_parity((f & (MASK1 | PAR1)) as u16);
    assert(u1 == (if (((f & (0b110_0110_0110_0100u16 | 0b000_0000_0000_0010)) ^ ((f & (0b110_0110_0110_0100u16 | 0b000_0000_0000_0010)) >> 1) ^ ((f & (0b110_0110_0110_0100u16 | 0b000_0000_0000_0010)) >> 2) ^ ((f & (0b110_0110_0110_0100u16 | 0b000_0000_0000_0010)) >> 3) ^ ((f & (0b110_0110_0110_0100u16 | 0b000_0000_0000_0010)) >> 4) ^ ((f & (0b110_0110_0110_0100u16 | 0b000_0000_0000_0010)) >> 5) ^ ((f & (0b110_0110_0110_0100u16 | 0b000_0000_0000_0010)) >> 6) ^ ((f & (0b110_0110_0110_0100u16 | 0b000_0000_0000_0010)) >> 7) ^ ((f & (0b110_0110_0110_0100u16 | 0b000_0000_0000_0010)) >> 8) ^ ((f & (0b110_0110_0110_0100u16 | 0b000_0000_0000_0010)) >> 9) ^ ((f & (0b110_0110_0110_0100u16 | 0b000_0000_0000_0010)) >> 10) ^ ((f & (0b110_0110_0110_0100u16 | 0b000_0000_0000_0010)) >> 11) ^ ((f & (0b110_0110_0110_0100u16 | 0b000_0000_0000_0010)) >> 12) ^ ((f & (0b110_0110_0110_0100u16 | 0b000_0000_0000_0010)) >> 13) ^ ((f & (0b110_0110_0110_0100u16 | 0b000_0000_0000_0010)) >> 14) ^ ((f & (0b110_0110_0110_0100u16 | 0b000_0000_0000_0010)) >> 15)) & 1) == 1 {
        0x2u16
    } else {
        0u16
    }));
    let u2 = spec_syndrome(f, MASK2, PAR2, 0x4);
    lemma_ones_parity((f & (MASK2 | PAR2)) as u16);
    assert(u2 == (if (((f & (0b111_1000_0111_0000u16 | 0b000_0000_0000_1000)) ^ ((f & (0b111_1000_0111_0000u16 | 0b000_0000_0000_1000)) >> 1) ^ ((f & (0b111_1000_0111_0000u16 | 0b000_0000_0000_1000)) >> 2) ^ ((f & (0b111_1000_0111_0000u16 | 0b000_0000_0000_1000)) >> 3) ^ ((f & (0b111_1000_0111_0000u16 | 0b000_0000_0000_1000)) >> 4) ^ ((f & (0b111_1000_0111_0000u16 | 0b000_0000_0000_1000)) >> 5) ^ ((f & (0b111_1000_0111_0000u16 | 0b000_0000_0000_1000)) >> 6) ^ ((f & (0b111_1000_0111_0000u16 | 0b000_0000_0000_1000)) >> 7) ^ ((f & (0b111_1000_0111_0000u16 | 0b000_0000_0000_1000)) >> 8) ^ ((f & (0b111_1000_0111_0000u16 | 0b000_0000_0000_1000)) >> 9) ^ ((f & (0b111_1000_0111_0000u16 | 0b000_0000_0000_1000)) >> 10) ^ ((f & (0b111_1000_0111_0000u16 | 0b000_0000_0000_1000)) >> 11) ^ ((f & (0b111_1000_0111_0000u16 | 0b000_0000_0000_1000)) >> 12) ^ ((f & (0b111_1000_0111_0000u16 | 0b000_0000_0000_1000)) >> 13) ^ ((f & (0b111_1000_0111_0000u16 | 0b000_0000_0000_1000)) >> 14) ^ ((f & (0b111_1000_0111_0000u16 | 0b000_0000_0000_1000)) >> 15)) & 1) == 1 {
        0x4u16
    } else {
        0u16
    }));
    let u3 = spec_syndrome(f, MASK3, PAR3, 0x8);
    lemma_ones_parity((f & (MASK3 | PAR3)) as u16);
    assert(u3 == (if (((f & (0b111_1111_0000_0000u16 | 0b000_0000_1000_0000)) ^ ((f & (0b111_1111_0000_0000u16 | 0b000_0000_1000_0000)) >> 1) ^ ((f & (0b111_1111_0000_0000u16 | 0b000_0000_1000_0000)) >> 2) ^ ((f & (0b111_1111_0000_0000u16 | 0b000_0000_1000_0000)) >> 3) ^ ((f & (0b111_1111_0000_0000u16 | 0b000_0000_1000_0000)) >> 4) ^ ((f & (0b111_1111_0000_0000u16 | 0b000_0000_1000_0000)) >> 5) ^ ((f & (0b111_1111_0000_0000u16 | 0b000_0000_1000_0000)) >> 6) ^ ((f & (0b111_1111_0000_0000u16 | 0b000_0000_1000_0000)) >> 7) ^ ((f & (0b111_1111_0000_0000u16 | 0b000_0000_1000_0000)) >> 8) ^ ((f & (0b111_1111_0000_0000u16 | 0b000_0000_1000_0000)) >> 9) ^ ((f & (0b111_1111_0000_0000u16 | 0b000_0000_1000_0000)) >> 10) ^ ((f & (0b111_1111_0000_0000u16 | 0b000_0000_1000_0000)) >> 11) ^ ((f & (0b111_1111_0000_0000u16 | 0b000_0000_1000_0000)) >> 12) ^ ((f & (0b111_1111_0000_0000u16 | 0b000_0000_1000_0000)) >> 13) ^ ((f & (0b111_1111_0000_0000u16 | 0b000_0000_1000_0000)) >> 14) ^ ((f & (0b111_1111_0000_0000u16 | 0b000_0000_1000_0000)) >> 15)) & 1) == 1 {
        0x8u16
    } else {
        0u16
    }));
    let uq = u0 | u1 | u2 | u3;
    let uc = f ^ ((1u16 << uq) >> 1);
    let ud = ((uc & 0b000_0100) >> 2) | ((uc & 0b111_0000) >> 3) | ((uc & 0x7f00) >> 4);
    assert(ud == spec_decode15(f));
    assert(ud == b) by (bit_vector)
        requires
            b < 0x800,
            k < 15,
            f == t3 ^ (1u16 << k),
            t == ((b & 0x7ff) & 0b0001) << 2 | ((b & 0x7ff) & 0b1110) << 3 | ((b & 0x7ff) & 0x7f0) << 4,
            t0 == (if (((t & 0b101_0101_0101_0100) ^ ((t & 0b101_0101_0101_0100) >> 1) ^ ((t & 0b101_0101_0101_0100) >> 2) ^ ((t & 0b101_0101_0101_0100) >> 3) ^ ((t & 0b101_0101_0101_0100) >> 4) ^ ((t & 0b101_0101_0101_0100) >> 5) ^ ((t & 0b101_0101_0101_0100) >> 6) ^ ((t & 0b101_0101_0101_0100) >> 7) ^ ((t & 0b101_0101_0101_0100) >> 8) ^ ((t & 0b101_0101_0101_0100) >> 9) ^ ((t & 0b101_0101_0101_0100) >> 10) ^ ((t & 0b101_0101_0101_0100) >> 11) ^ ((t & 0b101_0101_0101_0100) >> 12) ^ ((t & 0b101_0101_0101_0100) >> 13) ^ ((t & 0b101_0101_0101_0100) >> 14) ^ ((t & 0b101_0101_0101_0100) >> 15)) & 1) == 1 { t | 0b000_0000_0000_0001 } else { t }),
            t1 == (if (((t0 & 0b110_0110_0110_0100) ^ ((t0 & 0b110_0110_0110_0100) >> 1) ^ ((t0 & 0b110_0110_0110_0100) >> 2) ^ ((t0 & 0b110_0110_0110_0100) >> 3) ^ ((t0 & 0b110_0110_0110_0100) >> 4) ^ ((t0 & 0b110_0110_0110_0100) >> 5) ^ ((t0 & 0b110_0110_0110_0100) >> 6) ^ ((t0 & 0b110_0110_0110_0100) >> 7) ^ ((t0 & 0b110_0110_0110_0100) >> 8) ^ ((t0 & 0b110_0110_0110_0100) >> 9) ^ ((t0 & 0b110_0110_0110_0100) >> 10) ^ ((t0 & 0b110_0110_0110_0100) >> 11) ^ ((t0 & 0b110_0110_0110_0100) >> 12) ^ ((t0 & 0b110_0110_0110_0100) >> 13) ^ ((t0 & 0b110_0110_0110_0100) >> 14) ^ ((t0 & 0b110_0110_0110_0100) >> 15)) & 1) == 1 { t0 | 0b000_0000_0000_0010 } else { t0 }),
            t2 == (if (((t1 & 0b111_1000_0111_0000) ^ ((t1 & 0b111_1000_0111_0000) >> 1) ^ ((t1 & 0b111_1000_0111_0000) >> 2) ^ ((t1 & 0b111_1000_0111_0000) >> 3) ^ ((t1 & 0b111_1000_0111_0000) >> 4) ^ ((t1 & 0b111_1000_0111_0000) >> 5) ^ ((t1 & 0b111_1000_0111_0000) >> 6) ^ ((t1 & 0b111_1000_0111_0000) >> 7) ^ ((t1 & 0b111_1000_0111_0000) >> 8) ^ ((t1 & 0b111_1000_0111_0000) >> 9) ^ ((t1 & 0b111_1000_0111_0000) >> 10) ^ ((t1 & 0b111_1000_0111_0000) >> 11) ^ ((t1 & 0b111_1000_0111_0000) >> 12) ^ ((t1 & 0b111_1000_0111_0000) >> 13) ^ ((t1 & 0b111_1000_0111_0000) >> 14) ^ ((t1 & 0b111_1000_0111_0000) >> 15)) & 1) == 1 { t1 | 0b000_0000_0000_1000 } else { t1 }),
            t3 == (if (((t2 & 0b111_1111_0000_0000) ^ ((t2 & 0b111_1111_0000_0000) >> 1) ^ ((t2 & 0b111_1111_0000_0000) >> 2) ^ ((t2 & 0b111_1111_0000_0000) >> 3) ^ ((t2 & 0b111_1111_0000_0000) >> 4) ^ ((t2 & 0b111_1111_0000_0000) >> 5) ^ ((t2 & 0b111_1111_0000_0000) >> 6) ^ ((t2 & 0b111_1111_0000_0000) >> 7) ^ ((t2 & 0b111_1111_0000_0000) >> 8) ^ ((t2 & 0b111_1111_0000_0000) >> 9) ^ ((t2 & 0b111_1111_0000_0000) >> 10) ^ ((t2 & 0b111_1111_0000_0000) >> 11) ^ ((t2 & 0b111_1111_0000_0000) >> 12) ^ ((t2 & 0b111_1111_0000_0000) >> 13) ^ ((t2 & 0b111_1111_0000_0000) >> 14) ^ ((t2 & 0b111_1111_0000_0000) >> 15)) & 1) == 1 { t2 | 0b000_0000_1000_0000 } else { t2 }),
            u0 == (if (((f & (0b101_0101_0101_0100u16 | 0b000_0000_0000_0001)) ^ ((f & (0b101_0101_0101_0100u16 | 0b000_0000_0000_0001)) >> 1) ^ ((f & (0b101_0101_0101_0100u16 | 0b000_0000_0000_0001)) >> 2) ^ ((f & (0b101_0101_0101_0100u16 | 0b000_0000_0000_0001)) >> 3) ^ ((f & (0b101_0101_0101_0100u16 | 0b000_0000_0000_0001)) >> 4) ^ ((f & (0b101_0101_0101_0100u16 | 0b000_0000_0000_0001)) >> 5) ^ ((f & (0b101_0101_0101_0100u16 | 0b000_0000_0000_0001)) >> 6) ^ ((f & (0b101_0101_0101_0100u16 | 0b000_0000_0000_0001)) >> 7) ^ ((f & (0b101_0101_0101_0100u16 | 0b000_0000_0000_0001)) >> 8) ^ ((f & (0b101_0101_0101_0100u16 | 0b000_0000_0000_0001)) >> 9) ^ ((f & (0b101_0101_0101_0100u16 | 0b000_0000_0000_0001)) >> 10) ^ ((f & (0b101_0101_0101_0100u16 | 0b000_0000_0000_0001)) >> 11) ^ ((f & (0b101_0101_0101_0100u16 | 0b000_0000_0000_0001)) >> 12) ^ ((f & (0b101_0101_0101_0100u16 | 0b000_0000_0000_0001)) >> 13) ^ ((f & (0b101_0101_0101_0100u16 | 0b000_0000_0000_0001)) >> 14) ^ ((f & (0b101_0101_0101_0100u16 | 0b000_0000_0000_0001)) >> 15)) & 1) == 1 { 0x1u16 } else { 0u16 }),
            u1 == (if (((f & (0b110_0110_0110_0100u16 | 0b000_0000_0000_0010)) ^ ((f & (0b110_0110_0110_0100u16 | 0b000_0000_0000_0010)) >> 1) ^ ((f & (0b110_0110_0110_0100u16 | 0b000_0000_0000_0010)) >> 2) ^ ((f & (0b110_0110_0110_0100u16 | 0b000_0000_0000_0010)) >> 3) ^ ((f & (0b110_0110_0110_0100u16 | 0b000_0000_0000_0010)) >> 4) ^ ((f & (0b110_0110_0110_0100u16 | 0b000_0000_0000_0010)) >> 5) ^ ((f & (0b110_0110_0110_0100u16 | 0b000_0000_0000_0010)) >> 6) ^ ((f & (0b110_0110_0110_0100u16 | 0b000_0000_0000_0010)) >> 7) ^ ((f & (0b110_0110_0110_0100u16 | 0b000_0000_0000_0010)) >> 8) ^ ((f & (0b110_0110_0110_0100u16 | 0b000_0000_0000_0010)) >> 9) ^ ((f & (0b110_0110_0110_0100u16 | 0b000_0000_0000_0010)) >> 10) ^ ((f & (0b110_0110_0110_0100u16 | 0b000_0000_0000_0010)) >> 11) ^ ((f & (0b110_0110_0110_0100u16 | 0b000_0000_0000_0010)) >> 12) ^ ((f & (0b110_0110_0110_0100u16 | 0b000_0000_0000_0010)) >> 13) ^ ((f & (0b110_0110_0110_0100u16 | 0b000_0000_0000_0010)) >> 14) ^ ((f & (0b110_0110_0110_0100u16 | 0b000_0000_0000_0010)) >> 15)) & 1) == 1 { 0x2u16 } else { 0u16 }),
            u2 == (if (((f & (0b111_1000_0111_0000u16 | 0b000_0000_0000_1000)) ^ ((f & (0b111_1000_0111_0000u16 | 0b000_0000_0000_1000)) >> 1) ^ ((f & (0b111_1000_0111_0000u16 | 0b000_0000_0000_1000)) >> 2) ^ ((f & (0b111_1000_0111_0000u16 | 0b000_0000_0000_1000)) >> 3) ^ ((f & (0b111_1000_0111_0000u16 | 0b000_0000_0000_1000)) >> 4) ^ ((f & (0b111_1000_0111_0000u16 | 0b000_0000_0000_1000)) >> 5) ^ ((f & (0b111_1000_0111_0000u16 | 0b000_0000_0000_1000)) >> 6) ^ ((f & (0b111_1000_0111_0000u16 | 0b000_0000_0000_1000)) >> 7) ^ ((f & (0b111_1000_0111_0000u16 | 0b000_0000_0000_1000)) >> 8) ^ ((f & (0b111_1000_0111_0000u16 | 0b000_0000_0000_1000)) >> 9) ^ ((f & (0b111_1000_0111_0000u16 | 0b000_0000_0000_1000)) >> 10) ^ ((f & (0b111_1000_0111_0000u16 | 0b000_0000_0000_1000)) >> 11) ^ ((f & (0b111_1000_0111_0000u16 | 0b000_0000_0000_1000)) >> 12) ^ ((f & (0b111_1000_0111_0000u16 | 0b000_0000_0000_1000)) >> 13) ^ ((f & (0b111_1000_0111_0000u16 | 0b000_0000_0000_1000)) >> 14) ^ ((f & (0b111_1000_0111_0000u16 | 0b000_0000_0000_1000)) >> 15)) & 1) == 1 { 0x4u16 } else { 0u16 }),
            u3 == (if (((f & (0b111_1111_0000_0000u16 | 0b000_0000_1000_0000)) ^ ((f & (0b111_1111_0000_0000u16 | 0b000_0000_1000_0000)) >> 1) ^ ((f & (0b111_1111_0000_0000u16 | 0b000_0000_1000_0000)) >> 2) ^ ((f & (0b111_1111_0000_0000u16 | 0b000_0000_1000_0000)) >> 3) ^ ((f & (0b111_1111_0000_0000u16 | 0b000_0000_1000_0000)) >> 4) ^ ((f & (0b111_1111_0000_0000u16 | 0b000_0000_1000_0000)) >> 5) ^ ((f & (0b111_1111_0000_0000u16 | 0b000_0000_1000_0000)) >> 6) ^ ((f & (0b111_1111_0000_0000u16 | 0b000_0000_1000_0000)) >> 7) ^ ((f & (0b111_1111_0000_0000u16 | 0b000_0000_1000_0000)) >> 8) ^ ((f & (0b111_1111_0000_0000u16 | 0b000_0000_1000_0000)) >> 9) ^ ((f & (0b111_1111_0000_0000u16 | 0b000_0000_1000_0000)) >> 10) ^ ((f & (0b111_1111_0000_0000u16 | 0b000_0000_1000_0000)) >> 11) ^ ((f & (0b111_1111_0000_0000u16 | 0b000_0000_1000_0000)) >> 12) ^ ((f & (0b111_1111_0000_0000u16 | 0b000_0000_1000_0000)) >> 13) ^ ((f & (0b111_1111_0000_0000u16 | 0b000_0000_1000_0000)) >> 14) ^ ((f & (0b111_1111_0000_0000u16 | 0b000_0000_1000_0000)) >> 15)) & 1) == 1 { 0x8u16 } else { 0u16 }),
            uq == u0 | u1 | u2 | u3,
            uc == f ^ ((1u16 << uq) >> 1),
            ud == ((uc & 0b000_0100) >> 2) | ((uc & 0b111_0000) >> 3) | ((uc & 0x7f00) >> 4),
    ;
}

} // verus!
