//! Bit-level decompositions of IEEE-754 single-precision patterns.
//!
//! The approximate `log2` kernel splits a positive float into a mantissa
//! forced into `[1, 2)` and an unbiased exponent, and the `sin`/`cos` kernel
//! encodes the alternating half-period sign by XOR-ing the parity of the
//! rounded period count into the sign bit. Those steps are exact integer
//! manipulations of the bit pattern and are verified here; the surrounding
//! polynomial evaluation works on machine floats and stays with the caller.

use vstd::prelude::*;

verus! {

/// Mask that clears the sign bit and the top exponent bit of a
/// single-precision pattern, keeping the mantissa and the low exponent bits.
pub const MANTISSA_KEEP_MASK: u32 = 0x3FFF_FFFF;

/// Exponent field of `1.0f32`: the bias value 127 shifted into place.
pub const EXPONENT_BIAS_BITS: u32 = 0x3F80_0000;

/// Number of mantissa bits in a single-precision float.
pub const MANTISSA_BITS: u32 = 23;

/// Exponent bias of single-precision floats.
pub const EXPONENT_BIAS: u32 = 127;

/// Replaces the exponent field of `bits` with the bias value while keeping
/// the mantissa bits, so that the pattern reads as a float in `[1, 2)`.
pub fn log2_mantissa_bits(bits: u32) -> (r: u32)
    ensures
        r == (bits & MANTISSA_KEEP_MASK) | EXPONENT_BIAS_BITS,
        r >> 23 == 127,
        r & 0x007F_FFFF == bits & 0x007F_FFFF,
{
    proof {
        let m = (bits & MANTISSA_KEEP_MASK) | EXPONENT_BIAS_BITS;
        assert(m >> 23 == 127 && m & 0x007F_FFFF == bits & 0x007F_FFFF)
            by (bit_vector)
            requires
                m == (bits & 0x3FFF_FFFFu32) | 0x3F80_0000u32,
        ;
    }
    (bits & MANTISSA_KEEP_MASK) | EXPONENT_BIAS_BITS
}

/// Unbiased exponent of a positive, finite single-precision pattern: the
/// exponent field minus the bias value.
pub fn log2_exponent(bits: u32) -> (r: i32)
    requires
        bits <= 0x7FFF_FFFF,
    ensures
        r == (bits >> 23) - 127,
        -127 <= r <= 128,
{
    proof {
        assert(bits >> 23 <= 255) by (bit_vector)
            requires
                bits <= 0x7FFF_FFFFu32,
        ;
    }
    (bits >> 23) as i32 - 127
}

/// XOR-s bit 0 of the rounded period count `n` into the sign position of the
/// polynomial result `poly_bits`: the sign flips exactly when `n` is odd,
/// and all other bits are untouched.
pub fn sin_parity_apply(poly_bits: u32, n: i32) -> (r: u32)
    ensures
        r == poly_bits ^ ((n as u32) << 31),
        r & 0x7FFF_FFFF == poly_bits & 0x7FFF_FFFF,
        (n as u32) & 1 == 0 ==> r == poly_bits,
        (n as u32) & 1 == 1 ==> r == poly_bits ^ 0x8000_0000,
{
    let sign: u32 = (n as u32) << 31;
    proof {
        let nu = n as u32;
        assert((poly_bits ^ (nu << 31)) & 0x7FFF_FFFF == poly_bits & 0x7FFF_FFFF
            && (nu & 1 == 0 ==> poly_bits ^ (nu << 31) == poly_bits)
            && (nu & 1 == 1 ==> poly_bits ^ (nu << 31) == poly_bits ^ 0x8000_0000u32))
            by (bit_vector)
        ;
    }
    poly_bits ^ sign
}

} // verus!
