//! Exact integer logarithm engine.
//!
//! Computes `floor(log_base(x))` bit-exactly for unsigned integers of width
//! 8/16/32/64. Base 2 goes through the bit-length of the input; other bases
//! use either a short threshold scan (small digit counts) or the fixed-point
//! reciprocal multiply of the magic constant pair, corrected by exactly one
//! comparison (`magic`). A repeated-division fallback covers every case and
//! doubles as the reference computation.

use vstd::arithmetic::div_mod::{
    lemma_div_by_self, lemma_div_decreases, lemma_div_is_ordered, lemma_div_pos_is_pos,
    lemma_fundamental_div_mod, lemma_mod_bound,
};
use vstd::arithmetic::logarithm::{
    lemma_log0, lemma_log_is_ordered, lemma_log_nonnegative, lemma_log_pow, lemma_log_s, log,
};
use vstd::arithmetic::mul::{
    lemma_mul_inequality, lemma_mul_is_distributive_add, lemma_mul_left_inequality,
};
use vstd::arithmetic::power::{
    lemma_pow0, lemma_pow1, lemma_pow_adds, lemma_pow_increases, lemma_pow_positive, pow,
};
use vstd::arithmetic::power2::{lemma2_to64, lemma2_to64_rest, lemma_pow2, pow2};
use vstd::bits::lemma_u64_shr_is_div;
use vstd::prelude::*;
use vstd::std_specs::bits::{axiom_u64_leading_zeros, u64_leading_zeros};

verus! {

/// Largest value representable in `bits` bits.
pub open spec fn width_max(bits: nat) -> nat {
    (pow2(bits) - 1) as nat
}

/// A power of a larger base is at least the same power of a smaller base.
pub proof fn lemma_pow_base_ordered(b1: nat, b2: nat, e: nat)
    requires
        1 <= b1 <= b2,
    ensures
        pow(b1 as int, e) <= pow(b2 as int, e),
    decreases e,
{
    if e == 0 {
        lemma_pow0(b1 as int);
        lemma_pow0(b2 as int);
    } else {
        let e1 = (e - 1) as nat;
        lemma_pow_base_ordered(b1, b2, e1);
        lemma_pow_adds(b1 as int, 1, e1);
        lemma_pow_adds(b2 as int, 1, e1);
        lemma_pow1(b1 as int);
        lemma_pow1(b2 as int);
        lemma_pow_positive(b2 as int, e1);
        lemma_mul_left_inequality(b1 as int, pow(b1 as int, e1), pow(b2 as int, e1));
        lemma_mul_inequality(b1 as int, b2 as int, pow(b2 as int, e1));
    }
}

/// The integer logarithm is bracketed by consecutive powers of its base:
/// `base^log(base, x) <= x < base^(log(base, x) + 1)`.
pub proof fn lemma_log_bounds(base: int, x: int)
    requires
        base >= 2,
        x >= 1,
    ensures
        log(base, x) >= 0,
        pow(base, log(base, x) as nat) <= x,
        x < pow(base, (log(base, x) + 1) as nat),
    decreases x,
{
    lemma_log_nonnegative(base, x);
    if x < base {
        lemma_log0(base, x);
        lemma_pow0(base);
        lemma_pow1(base);
    } else {
        let q = x / base;
        lemma_div_is_ordered(base, x, base);
        lemma_div_by_self(base);
        lemma_div_decreases(x, base);
        lemma_log_s(base, x);
        lemma_log_bounds(base, q);
        let lq = log(base, q) as nat;
        lemma_fundamental_div_mod(x, base);
        lemma_mod_bound(x, base);
        // lower bound: base^(lq+1) == base * base^lq <= base * q <= x
        lemma_pow_adds(base, 1, lq);
        lemma_pow1(base);
        lemma_mul_left_inequality(base, pow(base, lq), q);
        // upper bound: x < base * (q + 1) <= base * base^(lq+1) == base^(lq+2)
        lemma_mul_is_distributive_add(base, q, 1);
        lemma_mul_left_inequality(base, q + 1, pow(base, (lq + 1) as nat));
        lemma_pow_adds(base, 1, lq + 1);
    }
}

/// The integer logarithm is the unique exponent whose consecutive powers
/// bracket the argument.
pub proof fn lemma_log_unique(base: int, x: int, n: nat)
    requires
        base >= 2,
        x >= 1,
        pow(base, n) <= x,
        x < pow(base, (n + 1) as nat),
    ensures
        log(base, x) == n,
{
    lemma_pow_positive(base, n);
    lemma_log_is_ordered(base, pow(base, n), x);
    lemma_log_pow(base, n);
    lemma_log_bounds(base, x);
    if log(base, x) > n {
        lemma_pow_increases(base as nat, n + 1, log(base, x) as nat);
    }
}

/// A power of the base stays below `x` exactly when its exponent stays
/// below the integer logarithm of `x`.
pub proof fn lemma_pow_le_iff(base: int, x: int, k: nat)
    requires
        base >= 2,
        x >= 1,
    ensures
        pow(base, k) <= x <==> k <= log(base, x),
{
    lemma_log_bounds(base, x);
    if pow(base, k) <= x {
        lemma_pow_positive(base, k);
        lemma_log_is_ordered(base, pow(base, k), x);
        lemma_log_pow(base, k);
    }
    if k <= log(base, x) {
        lemma_pow_increases(base as nat, k, log(base, x) as nat);
    }
}

/// The integer logarithm of a 64-bit value is at most 63.
pub proof fn lemma_log_u64_max(base: int, x: u64)
    requires
        base >= 2,
        x >= 1,
    ensures
        0 <= log(base, x as int) <= 63,
{
    lemma_log_bounds(base, x as int);
    if log(base, x as int) > 63 {
        lemma_pow_base_ordered(2, base as nat, 64);
        lemma_pow_increases(base as nat, 64, log(base, x as int) as nat);
        lemma_pow2(64);
        lemma2_to64_rest();
    }
}

/// Number of bits needed to write `x` in binary, through `leading_zeros`:
/// the result `r` satisfies `2^(r-1) <= x < 2^r`, so `r - 1 == ilog2(x)`.
pub fn bit_length(x: u64) -> (r: u32)
    requires
        x >= 1,
    ensures
        1 <= r <= 64,
        pow2((r - 1) as nat) <= x < pow2(r as nat),
        r - 1 == log(2, x as int),
{
    let lz = x.leading_zeros();
    proof {
        axiom_u64_leading_zeros(x);
        let lzs = u64_leading_zeros(x);
        let k: u64 = (64 - lzs) as u64;
        // upper bound: x >> k == 0, hence x < 2^k
        if k < 64 {
            lemma_u64_shr_is_div(x, k);
            vstd::arithmetic::power2::lemma_pow2_pos(k as nat);
            lemma_fundamental_div_mod(x as int, pow2(k as nat) as int);
            lemma_mod_bound(x as int, pow2(k as nat) as int);
        } else {
            lemma2_to64_rest();
        }
        // lower bound: bit k - 1 of x is set, hence x / 2^(k-1) >= 1
        let j: u64 = (k - 1) as u64;
        assert((x >> j) & 1 != 0 ==> x >> j != 0) by (bit_vector);
        lemma_u64_shr_is_div(x, j);
        vstd::arithmetic::power2::lemma_pow2_pos(j as nat);
        lemma_fundamental_div_mod(x as int, pow2(j as nat) as int);
        lemma_mod_bound(x as int, pow2(j as nat) as int);
        lemma_mul_left_inequality(pow2(j as nat) as int, 1, x as int / pow2(j as nat) as int);
        // identify the bracket with the base-2 integer logarithm
        lemma_pow2(j as nat);
        lemma_pow2(k as nat);
        lemma_log_unique(2, x as int, j as nat);
    }
    64 - lz
}

/// Reference computation of the exact integer logarithm by repeated
/// division: divides `x` by `base` until the quotient drops below `base`
/// and counts the steps.
pub fn ilog_by_division(base: u64, x: u64) -> (r: u32)
    requires
        base >= 2,
        x >= 1,
    ensures
        r == log(base as int, x as int),
        r <= 63,
{
    let mut y = x;
    let mut steps: u32 = 0;
    proof {
        lemma_log_u64_max(base as int, x);
    }
    while y >= base
        invariant
            base >= 2,
            y >= 1,
            log(base as int, x as int) == steps + log(base as int, y as int),
            log(base as int, x as int) <= 63,
            log(base as int, y as int) >= 0,
        decreases y,
    {
        proof {
            lemma_log_s(base as int, y as int);
            lemma_div_pos_is_pos(y as int, base as int);
            lemma_div_is_ordered(base as int, y as int, base as int);
            lemma_div_by_self(base as int);
            lemma_div_decreases(y as int, base as int);
            lemma_log_nonnegative(base as int, y as int / base as int);
        }
        y = y / base;
        steps = steps + 1;
    }
    proof {
        lemma_log0(base as int, y as int);
    }
    steps
}

/// Computes `base^e` with overflow detection: `None` exactly when the power
/// does not fit in 64 bits.
pub(crate) fn pow_checked(base: u64, e: u32) -> (r: Option<u64>)
    requires
        base >= 2,
    ensures
        match r {
            Some(v) => v == pow(base as int, e as nat),
            None => pow(base as int, e as nat) > u64::MAX,
        },
{
    let mut acc: u64 = 1;
    let mut i: u32 = 0;
    proof {
        lemma_pow0(base as int);
    }
    while i < e
        invariant
            base >= 2,
            i <= e,
            acc == pow(base as int, i as nat),
            acc >= 1,
        decreases e - i,
    {
        proof {
            lemma_pow_adds(base as int, i as nat, 1);
            lemma_pow1(base as int);
            vstd::arithmetic::mul::lemma_mul_increases(acc as int, base as int);
        }
        let next = acc.checked_mul(base);
        if next.is_none() {
            proof {
                lemma_pow_increases(base as nat, (i + 1) as nat, e as nat);
            }
            return None;
        }
        acc = next.unwrap();
        i = i + 1;
    }
    Some(acc)
}

/// Exact integer power by binary exponentiation: iterates over the bits of
/// the exponent, squaring the running base and multiplying the accumulator
/// in for each set bit.
pub(crate) fn ipow_u64(base: u64, e: u64) -> (r: u64)
    requires
        pow(base as int, e as nat) <= u64::MAX,
    ensures
        r == pow(base as int, e as nat),
{
    if base == 0 {
        if e == 0 {
            proof {
                lemma_pow0(0);
            }
            1
        } else {
            proof {
                vstd::arithmetic::power::lemma0_pow(e as nat);
            }
            0
        }
    } else if base == 1 {
        proof {
            vstd::arithmetic::power::lemma1_pow(e as nat);
        }
        1
    } else if e == 0 {
        proof {
            lemma_pow0(base as int);
        }
        1
    } else {
        let mut b = base;
        let mut ex = e;
        let mut acc: u64 = 1;
        proof {
            lemma_pow1(base as int);
        }
        while ex > 1
            invariant
                b >= 2,
                ex >= 1,
                acc >= 1,
                acc * pow(b as int, ex as nat) == pow(base as int, e as nat),
                pow(base as int, e as nat) <= u64::MAX,
            decreases ex,
        {
            let ghost acc0 = acc;
            let ghost b0 = b;
            let ghost ex0 = ex as nat;
            proof {
                assert(ex & 1 == ex % 2) by (bit_vector);
                lemma_pow_positive(b as int, ex as nat);
                lemma_pow_increases(b as nat, 1, ex as nat);
                lemma_pow1(b as int);
                // acc * b <= acc * pow(b, ex) <= u64::MAX
                lemma_mul_left_inequality(acc as int, b as int, pow(b as int, ex as nat));
            }
            if ex & 1 == 1 {
                acc = acc * b;
            }
            proof {
                // pow(b, ex) == (ex odd ? b : 1) * pow(b * b, ex / 2)
                let half = (ex0 / 2) as nat;
                lemma_square_is_pow2_local(b0 as int);
                vstd::arithmetic::power::lemma_pow_multiplies(b0 as int, 2, half);
                lemma_pow_adds(b0 as int, (ex0 % 2) as nat, (2 * half) as nat);
                lemma_pow1(b0 as int);
                lemma_pow0(b0 as int);
                lemma_fundamental_div_mod(ex0 as int, 2);
                // b * b stays within range: b^2 <= pow(b, ex) when ex >= 2
                lemma_pow_increases(b0 as nat, 2, ex0);
                lemma_pow_positive(b0 as int, ex0);
                lemma_pow_positive(b0 as int, 2);
                lemma_mul_left_inequality(acc0 as int, pow(b0 as int, 2), pow(b0 as int, ex0));
                vstd::arithmetic::mul::lemma_mul_increases(acc0 as int, pow(b0 as int, 2));
                // the accumulator and the squared base stay at least 1 and 2
                vstd::arithmetic::mul::lemma_mul_increases(b0 as int, acc0 as int);
                vstd::arithmetic::mul::lemma_mul_is_commutative(b0 as int, acc0 as int);
                vstd::arithmetic::mul::lemma_mul_increases(b0 as int, b0 as int);
            }
            b = b * b;
            ex = ex / 2;
            proof {
                let half = (ex0 / 2) as nat;
                if ex0 % 2 == 1 {
                    assert(acc == acc0 * b0);
                    assert(pow(b0 as int, ex0) == pow(b0 as int, 1) * pow((b0 * b0) as int, half));
                    vstd::arithmetic::mul::lemma_mul_is_associative(
                        acc0 as int,
                        b0 as int,
                        pow((b0 * b0) as int, half),
                    );
                } else {
                    assert(pow(b0 as int, ex0) == pow((b0 * b0) as int, half));
                }
            }
        }
        proof {
            lemma_pow1(b as int);
        }
        acc * b
    }
}

/// `pow(x, 2) == x * x`, stated locally for use with a concrete square.
proof fn lemma_square_is_pow2_local(x: int)
    ensures
        pow(x, 2) == x * x,
{
    vstd::arithmetic::power::lemma_square_is_pow2(x);
}

/// Largest value representable in the given width, as a 64-bit value.
pub(crate) fn width_max_u64(bits: u32) -> (r: u64)
    requires
        bits == 8 || bits == 16 || bits == 32 || bits == 64,
    ensures
        r == width_max(bits as nat),
        r >= 0xFF,
{
    proof {
        lemma2_to64();
        lemma2_to64_rest();
    }
    if bits == 64 {
        u64::MAX
    } else {
        let sh: u64 = 1u64 << bits;
        proof {
            vstd::bits::lemma_u64_pow2_no_overflow(bits as nat);
            vstd::bits::lemma_u64_shl_is_mul(1u64, bits as u64);
        }
        sh - 1
    }
}

/// Core of the exact integer logarithm for a value of the given width.
///
/// Base 2 reads the answer off the bit length. Other bases compare the
/// maximum digit count: when it is small, an unrolled threshold scan counts
/// the powers of the base not exceeding `x`; otherwise the magic constant
/// pair estimates the digit count from the bit length and one comparison
/// corrects it. Repeated division stands in whenever no validated pair is
/// available.
pub(crate) fn ilog_core(x: u64, base: u64, bits: u32) -> (r: u32)
    requires
        bits == 8 || bits == 16 || bits == 32 || bits == 64,
        1 <= x,
        x as nat <= width_max(bits as nat),
        2 <= base <= 0xFFFF_FFFF,
        base as nat <= width_max(bits as nat),
    ensures
        r == log(base as int, x as int),
        r <= 63,
{
    proof {
        lemma_log_u64_max(base as int, x);
    }
    if base == 2 {
        bit_length(x) - 1
    } else {
        let max_w = width_max_u64(bits);
        let max_exp = ilog_by_division(base, max_w);
        proof {
            lemma_log_is_ordered(base as int, x as int, max_w as int);
            lemma_log_nonnegative(base as int, x as int);
        }
        if max_exp <= 10 {
            // unrolled linear scan: one comparison per possible digit
            let mut i: u32 = 0;
            let mut p: u64 = 1;
            let mut count: u32 = 0;
            proof {
                lemma_pow0(base as int);
            }
            while i < max_exp
                invariant
                    2 <= base,
                    1 <= x <= max_w,
                    0 <= i <= max_exp,
                    max_exp == log(base as int, max_w as int),
                    p == pow(base as int, i as nat),
                    count == if log(base as int, x as int) <= i as int {
                        log(base as int, x as int)
                    } else {
                        i as int
                    },
                decreases max_exp - i,
            {
                proof {
                    lemma_pow_adds(base as int, i as nat, 1);
                    lemma_pow1(base as int);
                    lemma_pow_increases(base as nat, (i + 1) as nat, max_exp as nat);
                    lemma_log_bounds(base as int, max_w as int);
                    lemma_pow_le_iff(base as int, x as int, (i + 1) as nat);
                }
                p = p * base;
                i = i + 1;
                if x >= p {
                    count = count + 1;
                }
            }
            count
        } else {
            match crate::magic::ilog_mul_shift(base, bits) {
                Some(pair) => ilog_with_magic(x, base, bits, pair.0, pair.1),
                None => ilog_by_division(base, x),
            }
        }
    }
}

/// Exact integer logarithm of a 32-bit value in base 2, read off the bit
/// length of the input.
pub fn log2(x: u32) -> (r: u32)
    requires
        x >= 1,
    ensures
        r == log(2, x as int),
{
    bit_length(x as u64) - 1
}

/// Exact-valued functions on unsigned element types: the exact integer
/// logarithm for a compile-time base, and the exact integer power used by
/// its correction step.
pub trait FastExactInt: Sized {
    /// The value of the element as a mathematical integer.
    spec fn as_nat(self) -> nat;

    /// Largest value representable in the element type.
    spec fn max_spec() -> nat;

    /// Exact integer logarithm, validated entry point: returns
    /// `floor(log_base(self))`. A zero input and a base of 0, 1, or beyond
    /// the element maximum are programmer errors, excluded here by
    /// precondition.
    fn ilog_const_base(self, base: u32) -> (r: Self)
        requires
            1 <= self.as_nat(),
            2 <= base,
            base as nat <= Self::max_spec(),
        ensures
            r.as_nat() == log(base as int, self.as_nat() as int),
    ;

    /// Exact integer logarithm, unchecked core: same value as
    /// `ilog_const_base` on the inputs both accept.
    fn ilog_const_base_unchecked(self, base: u32) -> (r: Self)
        requires
            1 <= self.as_nat(),
            2 <= base,
            base as nat <= Self::max_spec(),
        ensures
            r.as_nat() == log(base as int, self.as_nat() as int),
    ;

    /// Exact integer power: returns `coeff^self`, which the precondition
    /// keeps representable in the element type.
    fn exp_const_coeff(self, coeff: u32) -> (r: Self)
        requires
            pow(coeff as int, self.as_nat()) <= Self::max_spec(),
        ensures
            r.as_nat() == pow(coeff as int, self.as_nat()),
    ;
}

impl FastExactInt for u8 {
    open spec fn as_nat(self) -> nat {
        self as nat
    }

    open spec fn max_spec() -> nat {
        0xFF
    }

    fn ilog_const_base(self, base: u32) -> (r: u8) {
        self.ilog_const_base_unchecked(base)
    }

    fn ilog_const_base_unchecked(self, base: u32) -> (r: u8) {
        proof {
            lemma2_to64();
            lemma2_to64_rest();
        }
        let r32 = ilog_core(self as u64, base as u64, 8);
        r32 as u8
    }

    fn exp_const_coeff(self, coeff: u32) -> (r: u8) {
        proof {
            lemma2_to64();
            lemma2_to64_rest();
        }
        let r64 = ipow_u64(coeff as u64, self as u64);
        r64 as u8
    }
}

impl FastExactInt for u16 {
    open spec fn as_nat(self) -> nat {
        self as nat
    }

    open spec fn max_spec() -> nat {
        0xFFFF
    }

    fn ilog_const_base(self, base: u32) -> (r: u16) {
        self.ilog_const_base_unchecked(base)
    }

    fn ilog_const_base_unchecked(self, base: u32) -> (r: u16) {
        proof {
            lemma2_to64();
            lemma2_to64_rest();
        }
        let r32 = ilog_core(self as u64, base as u64, 16);
        r32 as u16
    }

    fn exp_const_coeff(self, coeff: u32) -> (r: u16) {
        proof {
            lemma2_to64();
            lemma2_to64_rest();
        }
        let r64 = ipow_u64(coeff as u64, self as u64);
        r64 as u16
    }
}

impl FastExactInt for u32 {
    open spec fn as_nat(self) -> nat {
        self as nat
    }

    open spec fn max_spec() -> nat {
        0xFFFF_FFFF
    }

    fn ilog_const_base(self, base: u32) -> (r: u32) {
        self.ilog_const_base_unchecked(base)
    }

    fn ilog_const_base_unchecked(self, base: u32) -> (r: u32) {
        proof {
            lemma2_to64();
            lemma2_to64_rest();
        }
        let r32 = ilog_core(self as u64, base as u64, 32);
        r32 as u32
    }

    fn exp_const_coeff(self, coeff: u32) -> (r: u32) {
        proof {
            lemma2_to64();
            lemma2_to64_rest();
        }
        let r64 = ipow_u64(coeff as u64, self as u64);
        r64 as u32
    }
}

impl FastExactInt for u64 {
    open spec fn as_nat(self) -> nat {
        self as nat
    }

    open spec fn max_spec() -> nat {
        0xFFFF_FFFF_FFFF_FFFF
    }

    fn ilog_const_base(self, base: u32) -> (r: u64) {
        self.ilog_const_base_unchecked(base)
    }

    fn ilog_const_base_unchecked(self, base: u32) -> (r: u64) {
        proof {
            lemma2_to64();
            lemma2_to64_rest();
        }
        let r32 = ilog_core(self as u64, base as u64, 64);
        r32 as u64
    }

    fn exp_const_coeff(self, coeff: u32) -> (r: u64) {
        proof {
            lemma2_to64();
            lemma2_to64_rest();
        }
        let r64 = ipow_u64(coeff as u64, self as u64);
        r64 as u64
    }
}


/// The reciprocal-multiply digit-count estimate with its one-comparison
/// correction, against a validated magic constant pair: exact for every
/// representable input.
pub(crate) fn ilog_with_magic(x: u64, base: u64, bits: u32, mul: u64, shift: u32) -> (r: u32)
    requires
        bits == 8 || bits == 16 || bits == 32 || bits == 64,
        1 <= x,
        x as nat <= width_max(bits as nat),
        2 <= base,
        crate::magic::mul_shift_good(bits as nat, base as nat, mul as nat, shift as nat),
    ensures
        r == log(base as int, x as int),
        r <= 63,
{
    proof {
        lemma_log_u64_max(base as int, x);
    }
    let len = bit_length(x);
    proof {
        // the bit length of a representable value is at most the width
        lemma2_to64();
        lemma2_to64_rest();
        if len > bits {
            if (len - 1) as nat > bits as nat {
                vstd::arithmetic::power2::lemma_pow2_strictly_increases(
                    bits as nat,
                    (len - 1) as nat,
                );
            }
            assert(false);
        }
        assert(crate::magic::mul_shift_good_at(base as nat, mul as nat, shift as nat, len as nat));
        crate::magic::lemma_magic_correction_exact(
            bits as nat,
            base as nat,
            mul as nat,
            shift as nat,
            x as nat,
            len as nat,
        );
    }
    let lm: u64 = (len as u64) * mul;
    proof {
        lemma_u64_shr_is_div(lm, shift as u64);
    }
    let a64: u64 = lm >> shift;
    let a: u32 = a64 as u32;
    match pow_checked(base, a) {
        Some(p) => {
            if p > x {
                a - 1
            } else {
                a
            }
        },
        None => a - 1,
    }
}

} // verus!
