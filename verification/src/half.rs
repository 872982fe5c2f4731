//! Half-precision numbers: single-precision bit patterns cut down to 16 bits,
//! by truncation.

use vstd::prelude::*;

use crate::bits;

verus! {

/// Sign bit of a single-precision pattern.
pub open spec fn sign_of(b: u32) -> int {
    b as int / 0x8000_0000
}

/// Biased exponent of a single-precision pattern.
pub open spec fn exponent_field(b: u32) -> int {
    b as int / 0x80_0000 % 256
}

/// Fraction of a single-precision pattern.
pub open spec fn fraction_of(b: u32) -> int {
    b as int % 0x80_0000
}

/// The half-precision pattern of a single-precision one: infinities and NaNs
/// are kept, numbers beyond the range become infinite, numbers below the
/// normal range become zero, and the fraction is cut to its leading ten bits.
pub open spec fn half_of(b: u32) -> int {
    let e = exponent_field(b);
    let f = fraction_of(b);
    sign_of(b) * 0x8000 + if e == 255 {
        0x7C00 + if f != 0 {
            0x200int
        } else {
            0
        }
    } else if e - 112 >= 31 {
        0x7C00
    } else if e - 112 <= 0 {
        0
    } else {
        (e - 112) * 0x400 + f / 0x2000
    }
}

/// Convert a single-precision bit pattern to half precision, truncating.
pub fn f32_to_f16(b: u32) -> (h: u16)
    ensures
        h == half_of(b),
{
    let sign: u32 = b / 0x8000_0000 * 0x8000;
    let e: u32 = b / 0x80_0000 % 256;
    let f: u32 = b % 0x80_0000;
    if e == 255 {
        let quiet: u32 = if f != 0 { 0x200 } else { 0 };
        return (sign + 0x7C00 + quiet) as u16;
    }
    if e >= 143 {
        return (sign + 0x7C00) as u16;
    }
    if e <= 112 {
        return sign as u16;
    }
    (sign + (e - 112) * 0x400 + f / 0x2000) as u16
}

/// In the normal range the conversion truncates: exponent and sign are kept,
/// and the fraction is the largest 10-bit one not above the original.
pub proof fn half_truncates(b: u32)
    requires
        112 < exponent_field(b) < 143,
    ensures
        half_of(b) / 0x8000 == sign_of(b),
        half_of(b) / 0x400 % 32 - 15 == exponent_field(b) - 127,
        half_of(b) % 0x400 * 0x2000 <= fraction_of(b) < (half_of(b) % 0x400 + 1) * 0x2000,
{
}

/// Two patterns packed into a word, the first in the lower half.
pub open spec fn half_pair(a: u32, b: u32) -> int {
    half_of(a) + half_of(b) * 0x1_0000
}

/// Pack two single-precision patterns into a word as two half-precision ones.
pub fn pack_f16_pair(a: u32, b: u32) -> (w: u32)
    ensures
        w == half_pair(a, b),
{
    let lo: u32 = f32_to_f16(a) as u32;
    let hi: u32 = f32_to_f16(b) as u32;
    proof {
        bits::lemma_halves(lo, hi);
    }
    lo | (hi << 16)
}

/// Outside the normal range: what is too small becomes a zero of its sign, what is too
/// large an infinity of its sign; an infinity stays one, and a NaN stays a NaN.
pub proof fn half_at_the_ends(b: u32)
    ensures
        half_of(b) / 0x8000 == sign_of(b),
        0 <= half_of(b) <= 0xFFFF,
        exponent_field(b) <= 112 ==> half_of(b) % 0x8000 == 0,
        143 <= exponent_field(b) < 255 ==> half_of(b) % 0x8000 == 0x7C00,
        exponent_field(b) == 255 && fraction_of(b) == 0 ==> half_of(b) % 0x8000 == 0x7C00,
        exponent_field(b) == 255 && fraction_of(b) != 0 ==> half_of(b) % 0x8000 > 0x7C00,
{
}

/// Larger numbers have larger halves: the conversion keeps the order of what is not
/// negative and not a NaN. A negative number has the half of its magnitude with the sign.
pub proof fn half_keeps_order(a: u32, b: u32)
    requires
        a <= b <= 0x7F80_0000,
    ensures
        half_of(a) <= half_of(b),
        half_of((a + 0x8000_0000) as u32) == half_of(a) + 0x8000,
{
    let n = (a + 0x8000_0000) as u32;
    assert(exponent_field(n) == exponent_field(a) && fraction_of(n) == fraction_of(a));
    assert(a == exponent_field(a) * 0x80_0000 + fraction_of(a));
    assert(b == exponent_field(b) * 0x80_0000 + fraction_of(b));
    assert(exponent_field(a) <= exponent_field(b));
}

/// The first of two packed numbers is the lower half of the word, the second the
/// upper.
pub proof fn pairs_hold_both_halves(a: u32, b: u32)
    ensures
        half_pair(a, b) % 0x1_0000 == half_of(a),
        half_pair(a, b) / 0x1_0000 == half_of(b),
        0 <= half_pair(a, b) <= u32::MAX,
{
    half_at_the_ends(a);
    half_at_the_ends(b);
}

} // verus!
