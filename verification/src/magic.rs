//! Magic constant derivation for the integer logarithm engine.
//!
//! For a width/base pair this produces the fixed-point pair
//! `(multiplier, shift)` with `multiplier/2^shift ~ 1/log2(base)`, by the
//! classical digit-by-digit binary logarithm at 32 fractional bits. The
//! derived pair is then validated against its defining invariant: for every
//! representable `x > 0`, `((ilog2(x) + 1) * multiplier) >> shift` is within
//! one of `floor(log_base(x))` and never underestimates, so that a single
//! comparison against `base^approx` corrects it exactly
//! (`lemma_magic_correction_exact`).

use crate::intlog::{lemma_log_bounds, width_max};
use vstd::arithmetic::div_mod::{
    lemma_div_by_multiple, lemma_div_denominator, lemma_div_is_ordered_by_denominator,
    lemma_fundamental_div_mod, lemma_mod_bound,
};
use vstd::arithmetic::logarithm::{lemma_log_is_ordered, log};
use vstd::arithmetic::mul::lemma_mul_inequality;
use vstd::arithmetic::power::pow;
use vstd::arithmetic::power2::{
    lemma2_to64, lemma2_to64_rest, lemma_pow2_adds, lemma_pow2_pos,
    lemma_pow2_strictly_increases, pow2,
};
use vstd::bits::{
    lemma_u128_shr_is_div, lemma_u64_pow2_no_overflow, lemma_u64_shl_is_mul, lemma_u64_shr_is_div,
};
use vstd::prelude::*;

verus! {

/// Number of halvings that bring the 32.32 fixed-point value `x` below 2.0.
pub open spec fn log2_shifts(x: nat) -> nat
    decreases x,
{
    if x < 0x2_0000_0000 {
        0
    } else {
        1 + log2_shifts(x / 2)
    }
}

/// Fraction bits of the digit-by-digit binary logarithm: squares the
/// mantissa `z`, compares against 2.0 in 32.32 fixed point, and accumulates
/// the probe bit `b` on each overflow, halving the probe down to zero.
pub open spec fn log2_frac(z: nat, b: nat) -> nat
    decreases b,
{
    if b == 0 {
        0
    } else {
        let z2 = (z * z) / 0x1_0000_0000;
        if z2 >= 0x2_0000_0000 {
            b + log2_frac(z2 / 2, b / 2)
        } else {
            log2_frac(z2, b / 2)
        }
    }
}

/// `log2(base)` in 32.32 fixed point, by the digit-by-digit method.
pub open spec fn log2_fix(base: nat) -> nat {
    let x0 = base * 0x1_0000_0000;
    let steps = log2_shifts(x0);
    steps * 0x1_0000_0000 + log2_frac(x0 / pow2(steps), 0x8000_0000)
}

/// Numerator of the fixed-point reciprocal for a given width: the largest
/// multiple-of-width power of two, `2^(bits - log2(bits))`.
pub open spec fn magic_numerator(bits: nat) -> nat {
    width_max(bits) / bits + 1
}

/// The derived multiplier: the numerator divided by the fixed-point
/// `log2(base)`, keeping 32 fraction bits through the division.
pub open spec fn magic_multiplier(bits: nat, base: nat) -> nat {
    (magic_numerator(bits) * 0x1_0000_0000) / log2_fix(base)
}

/// The derived shift: the bit position of the numerator.
pub open spec fn magic_shift(bits: nat) -> int {
    log(2, magic_numerator(bits) as int)
}

/// The digit-count estimate of the engine: `(len * multiplier) >> shift`,
/// where `len` is the bit length of the input.
pub open spec fn magic_approx(mul: nat, shift: nat, len: nat) -> int {
    (len * mul) as int / pow2(shift) as int
}

/// The estimate is sound for inputs of bit length `len`: the product fits
/// in 64 bits, and the estimate is sandwiched between the exact logarithm
/// of the largest such input and one above the exact logarithm of the
/// smallest.
pub open spec fn mul_shift_good_at(base: nat, mul: nat, shift: nat, len: nat) -> bool {
    &&& len * mul <= u64::MAX
    &&& log(base as int, (pow2(len) - 1) as int) <= magic_approx(mul, shift, len)
    &&& magic_approx(mul, shift, len) <= log(base as int, pow2((len - 1) as nat) as int) + 1
}

/// The defining invariant of a magic constant pair for a given width: the
/// estimate is sound for every possible bit length of a representable
/// nonzero input.
pub open spec fn mul_shift_good(bits: nat, base: nat, mul: nat, shift: nat) -> bool {
    &&& shift < 64
    &&& forall|len: nat| 1 <= len <= bits ==> mul_shift_good_at(base, mul, shift, len)
}

/// Magic constant correctness: for every representable `x > 0`, the
/// estimate from a validated pair equals `floor(log_base(x))` or exceeds it
/// by exactly one, and the single comparison `base^approx > x` detects the
/// excess, so the one-step-corrected approximation is exact.
pub proof fn lemma_magic_correction_exact(
    bits: nat,
    base: nat,
    mul: nat,
    shift: nat,
    x: nat,
    len: nat,
)
    requires
        2 <= base,
        1 <= bits,
        mul_shift_good(bits, base, mul, shift),
        1 <= x < pow2(bits),
        1 <= len <= bits,
        pow2((len - 1) as nat) <= x < pow2(len),
    ensures
        ({
            let a = magic_approx(mul, shift, len);
            let e = log(base as int, x as int);
            &&& e <= a <= e + 1
            &&& (pow(base as int, a as nat) > x <==> a == e + 1)
            &&& (if pow(base as int, a as nat) > x {
                a - 1
            } else {
                a
            }) == e
        }),
{
    let a = magic_approx(mul, shift, len);
    let e = log(base as int, x as int);
    assert(mul_shift_good_at(base, mul, shift, len));
    lemma_pow2_pos((len - 1) as nat);
    lemma_pow2_pos(len);
    // monotonicity brackets the exact logarithm of x between the logs of
    // the extreme inputs of this bit length
    lemma_log_is_ordered(base as int, pow2((len - 1) as nat) as int, x as int);
    lemma_log_is_ordered(base as int, x as int, (pow2(len) - 1) as int);
    assert(e <= a);
    assert(a <= log(base as int, pow2((len - 1) as nat) as int) + 1);
    assert(a <= e + 1);
    // the comparison against base^a detects exactly the off-by-one case
    lemma_log_bounds(base as int, x as int);
    if a == e + 1 {
        assert(x < pow(base as int, (e + 1) as nat));
    } else {
        assert(a == e);
        assert(pow(base as int, e as nat) <= x);
    }
}

/// Derives the magic constant pair for the given width and base by the
/// fixed-point binary logarithm, then validates its defining invariant for
/// every possible input bit length. Returns the pair exactly when the derived
/// values pass validation.
pub fn ilog_mul_shift(base: u64, bits: u32) -> (r: Option<(u64, u32)>)
    requires
        2 <= base <= 0xFFFF_FFFF,
        bits == 8 || bits == 16 || bits == 32 || bits == 64,
        base <= width_max(bits as nat),
    ensures
        ({
            let mul = magic_multiplier(bits as nat, base as nat);
            let shift = magic_shift(bits as nat);
            match r {
                Some((m, s)) => {
                    &&& m == mul
                    &&& s == shift
                    &&& mul_shift_good(bits as nat, base as nat, m as nat, s as nat)
                },
                None => !mul_shift_good(bits as nat, base as nat, mul as nat, shift as nat),
            }
        }),
{
    proof {
        lemma2_to64();
        lemma2_to64_rest();
    }
    let max_w: u64 = if bits == 64 {
        u64::MAX
    } else {
        let sh: u64 = 1u64 << bits;
        proof {
            lemma_u64_pow2_no_overflow(bits as nat);
            lemma_u64_shl_is_mul(1u64, bits as u64);
        }
        sh - 1
    };
    proof {
        assert(max_w == width_max(bits as nat));
    }
    let numerator: u64 = max_w / (bits as u64) + 1;
    let shift: u32 = crate::intlog::bit_length(numerator) - 1;
    proof {
        assert(numerator == magic_numerator(bits as nat));
        assert(shift == magic_shift(bits as nat));
        assert(shift < 64);
    }

    // integer part of log2(base) in 32.32 fixed point, counting halvings
    let x0: u64 = base << 32;
    proof {
        lemma_u64_shl_is_mul(base, 32);
    }
    let mut x: u64 = x0;
    let mut steps: u32 = 0;
    proof {
        assert(x0 as nat / pow2(0) == x0) by {
            lemma_pow2_pos(0);
        }
    }
    while x >= 0x2_0000_0000
        invariant
            x0 == base * 0x1_0000_0000,
            2 <= base <= 0xFFFF_FFFF,
            x == x0 as nat / pow2(steps as nat),
            x >= 0x1_0000_0000,
            log2_shifts(x0 as nat) == steps + log2_shifts(x as nat),
            steps <= 32,
        decreases x,
    {
        proof {
            lemma2_to64();
            lemma_u64_shr_is_div(x, 1);
            lemma_pow2_pos(steps as nat);
            lemma_div_denominator(x0 as int, pow2(steps as nat) as int, 2);
            lemma_pow2_adds(steps as nat, 1);
            // steps stays small: 2^steps * 2^32 <= x0 < 2^64
            lemma_fundamental_div_mod(x0 as int, pow2(steps as nat) as int);
            lemma_mod_bound(x0 as int, pow2(steps as nat) as int);
            lemma_mul_inequality(0x1_0000_0000, x as int, pow2(steps as nat) as int);
            if steps >= 32 {
                lemma_pow2_strictly_increases(31, steps as nat);
            }
        }
        x = x >> 1;
        steps = steps + 1;
    }
    let z0: u64 = x;

    // fraction part: square-and-compare, one result bit per iteration
    let mut z: u128 = z0 as u128;
    let mut b: u64 = 0x8000_0000;
    let mut frac: u64 = 0;
    while b != 0
        invariant
            z < 0x2_0000_0000,
            frac + 2 * b <= 0x1_0000_0000,
            log2_frac(z0 as nat, 0x8000_0000) == frac + log2_frac(z as nat, b as nat),
        decreases b,
    {
        proof {
            lemma2_to64();
            assert(z * z < 0x4_0000_0000_0000_0000) by {
                lemma_mul_inequality(z as int, 0x2_0000_0000, z as int);
                lemma_mul_inequality(z as int, 0x2_0000_0000, 0x2_0000_0000);
            }
        }
        let zz: u128 = z * z;
        proof {
            lemma_u128_shr_is_div(zz, 32);
        }
        let z2: u128 = zz >> 32;
        if z2 >= 0x2_0000_0000 {
            proof {
                lemma2_to64();
                lemma_u128_shr_is_div(z2, 1);
            }
            z = z2 >> 1;
            frac = frac + b;
        } else {
            z = z2;
        }
        proof {
            lemma2_to64();
            lemma_u64_shr_is_div(b, 1);
        }
        b = b >> 1;
    }
    let log2_fixed: u64 = {
        let int_part: u64 = (steps as u64) << 32;
        proof {
            lemma_u64_shl_is_mul(steps as u64, 32);
        }
        int_part + frac
    };
    proof {
        assert(log2_fixed == log2_fix(base as nat));
        // base >= 2 forces at least one halving, so the fixed-point value
        // carries a nonzero integer part
        assert(steps >= 1);
    }

    let mul_wide: u128 = ((numerator as u128) * 0x1_0000_0000) / (log2_fixed as u128);
    proof {
        // the divisor is at least 2^32, so the quotient is at most the
        // numerator and fits the narrow type
        lemma_div_is_ordered_by_denominator(
            (numerator as int) * 0x1_0000_0000,
            0x1_0000_0000,
            log2_fixed as int,
        );
        lemma_div_by_multiple(numerator as int, 0x1_0000_0000);
        assert(mul_wide == magic_multiplier(bits as nat, base as nat));
    }
    let mul: u64 = mul_wide as u64;

    // validate the derived pair for every representable bit length,
    // tracking the exact logarithms of the extreme inputs of each bit
    // length incrementally rather than recomputing them
    let mut l: u32 = 1;
    let mut e_lo: u32 = 0;
    let mut p_lo: u64 = base;
    let mut p_lo_ovf: bool = false;
    let mut e_hi: u32 = 0;
    let mut p_hi: u64 = base;
    let mut p_hi_ovf: bool = false;
    proof {
        lemma_pow0_local(base as int);
        lemma_pow1_local(base as int);
    }
    while l <= bits
        invariant
            2 <= base <= 0xFFFF_FFFF,
            bits == 8 || bits == 16 || bits == 32 || bits == 64,
            1 <= l <= bits + 1,
            shift < 64,
            mul == magic_multiplier(bits as nat, base as nat),
            shift == magic_shift(bits as nat),
            pow(base as int, e_lo as nat) <= pow2((l - 1) as nat),
            !p_lo_ovf ==> p_lo == pow(base as int, (e_lo + 1) as nat),
            p_lo_ovf ==> pow(base as int, (e_lo + 1) as nat) > u64::MAX,
            e_lo <= 63,
            pow(base as int, e_hi as nat) <= pow2(l as nat) - 1,
            !p_hi_ovf ==> p_hi == pow(base as int, (e_hi + 1) as nat),
            p_hi_ovf ==> pow(base as int, (e_hi + 1) as nat) > u64::MAX,
            e_hi <= 63,
            forall|len: nat|
                1 <= len < l ==> mul_shift_good_at(base as nat, mul as nat, shift as nat, len),
        decreases bits + 1 - l,
    {
        proof {
            lemma2_to64();
            lemma2_to64_rest();
            lemma_u64_pow2_no_overflow((l - 1) as nat);
            lemma_u64_shl_is_mul(1u64, (l - 1) as u64);
        }
        let lo: u64 = 1u64 << (l - 1);
        let hi: u64 = if l == 64 {
            u64::MAX
        } else {
            let sh: u64 = 1u64 << l;
            proof {
                lemma_u64_pow2_no_overflow(l as nat);
                lemma_u64_shl_is_mul(1u64, l as u64);
            }
            sh - 1
        };
        proof {
            assert(lo == pow2((l - 1) as nat));
            assert(hi == pow2(l as nat) - 1);
            lemma_pow2_pos((l - 1) as nat);
            lemma_pow2_strictly_increases((l - 1) as nat, l as nat);
        }
        // advance the tracker of log(base, lo)
        while !p_lo_ovf && p_lo <= lo
            invariant
                2 <= base,
                lo >= 1,
                pow(base as int, e_lo as nat) <= lo,
                !p_lo_ovf ==> p_lo == pow(base as int, (e_lo + 1) as nat),
                p_lo_ovf ==> pow(base as int, (e_lo + 1) as nat) > u64::MAX,
                e_lo <= 63,
            decreases 64 - e_lo,
        {
            proof {
                crate::intlog::lemma_pow_le_iff(base as int, lo as int, (e_lo + 1) as nat);
                crate::intlog::lemma_log_u64_max(base as int, lo);
                lemma_pow_adds_local(base as int, (e_lo + 2) as nat);
            }
            e_lo = e_lo + 1;
            let next = p_lo.checked_mul(base);
            if next.is_none() {
                p_lo_ovf = true;
            } else {
                p_lo = next.unwrap();
            }
        }
        proof {
            crate::intlog::lemma_log_unique(base as int, lo as int, e_lo as nat);
        }
        // advance the tracker of log(base, hi)
        while !p_hi_ovf && p_hi <= hi
            invariant
                2 <= base,
                hi >= 1,
                pow(base as int, e_hi as nat) <= hi,
                !p_hi_ovf ==> p_hi == pow(base as int, (e_hi + 1) as nat),
                p_hi_ovf ==> pow(base as int, (e_hi + 1) as nat) > u64::MAX,
                e_hi <= 63,
            decreases 64 - e_hi,
        {
            proof {
                crate::intlog::lemma_pow_le_iff(base as int, hi as int, (e_hi + 1) as nat);
                crate::intlog::lemma_log_u64_max(base as int, hi);
                lemma_pow_adds_local(base as int, (e_hi + 2) as nat);
            }
            e_hi = e_hi + 1;
            let next = p_hi.checked_mul(base);
            if next.is_none() {
                p_hi_ovf = true;
            } else {
                p_hi = next.unwrap();
            }
        }
        proof {
            crate::intlog::lemma_log_unique(base as int, hi as int, e_hi as nat);
        }
        // the estimate for this bit length, and its one-sided check
        let lm = (l as u64).checked_mul(mul);
        if lm.is_none() {
            proof {
                assert(!mul_shift_good_at(base as nat, mul as nat, shift as nat, l as nat));
            }
            return None;
        }
        let a: u64 = lm.unwrap() >> shift;
        proof {
            lemma_u64_shr_is_div(lm.unwrap(), shift as u64);
            assert(a == magic_approx(mul as nat, shift as nat, l as nat));
        }
        if !((e_hi as u64) <= a && a <= (e_lo as u64) + 1) {
            proof {
                assert(!mul_shift_good_at(base as nat, mul as nat, shift as nat, l as nat));
            }
            return None;
        }
        proof {
            assert(mul_shift_good_at(base as nat, mul as nat, shift as nat, l as nat));
            // the trackers stay valid for the doubled extremes of the next
            // bit length
            lemma_pow2_strictly_increases(l as nat, (l + 1) as nat);
        }
        l = l + 1;
    }
    Some((mul, shift))
}


/// `pow(b, 0) == 1`, stated locally.
proof fn lemma_pow0_local(b: int)
    ensures
        pow(b, 0) == 1,
{
    vstd::arithmetic::power::lemma_pow0(b);
}

/// `pow(b, 1) == b`, stated locally.
proof fn lemma_pow1_local(b: int)
    ensures
        pow(b, 1) == b,
{
    vstd::arithmetic::power::lemma_pow1(b);
}

/// One more factor of the base: `pow(b, e) == pow(b, e - 1) * b`.
proof fn lemma_pow_adds_local(b: int, e: nat)
    requires
        e >= 1,
    ensures
        pow(b, e) == pow(b, (e - 1) as nat) * b,
{
    vstd::arithmetic::power::lemma_pow_adds(b, (e - 1) as nat, 1);
    vstd::arithmetic::power::lemma_pow1(b);
}

} // verus!
