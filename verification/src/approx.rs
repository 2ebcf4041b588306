//! Fast approximate transcendental functions: the shared API surface.
//!
//! The kernels behind these traits evaluate minimax polynomials on machine
//! floats, and their results are machine-dependent by design, so no
//! implementation can live in the verified library; callers implement the
//! traits for their float types around the verified bit-level helpers of
//! `float_bits`. Precision selects a coefficient tier between 0 (fastest,
//! least precise) and 3 (slowest, most precise); the declared maximum
//! absolute error of `sin`/`cos` over `[-PI/2, PI/2]` per tier is 2.9e-2,
//! 6.0e-4, 6.9e-6 and 2.7e-7.

use vstd::prelude::*;

verus! {

/// Approximate sine and cosine. Inputs are valid in `[-2^23, 2^23]`;
/// accuracy decays as the magnitude grows, by nature of the fast range
/// reduction, and outputs should never be compared for equality.
pub trait FastApprox: Sized {
    /// Approximate sine at the selected precision tier.
    fn sin_fast_approx<const PRECISION: usize>(self) -> Self;

    /// Approximate cosine at the selected precision tier.
    fn cos_fast_approx<const PRECISION: usize>(self) -> Self;
}

/// The full family of fast approximate functions for float element types:
/// sine and cosine with and without range reduction, and the logarithms
/// derived from the base-2 kernel. Outputs may differ based on platform,
/// so nothing should be checked for equality.
pub trait FastApproxFloat: Sized {
    /// Approximate sine; inputs valid in `[-2^23, 2^23]`.
    fn sin_fast_approx<const PRECISION: usize>(self) -> Self;

    /// Approximate cosine; inputs valid in `[-2^23, 2^23]`.
    fn cos_fast_approx<const PRECISION: usize>(self) -> Self;

    /// Approximate sine on the pre-reduced domain `[-PI/2, PI/2]`,
    /// trading the range reduction for the stricter precondition.
    fn sin_restrict_fast_approx<const PRECISION: usize>(self) -> Self;

    /// Approximate cosine on the pre-reduced domain `[-PI/2, PI/2]`.
    fn cos_restrict_fast_approx<const PRECISION: usize>(self) -> Self;

    /// Approximate base-2 logarithm; inputs valid in `(0, inf)`.
    fn log2_fast_approx<const PRECISION: usize>(self) -> Self;

    /// Approximate base-10 logarithm, derived from the base-2 kernel.
    fn log10_fast_approx<const PRECISION: usize>(self) -> Self;

    /// Approximate natural logarithm, derived from the base-2 kernel.
    fn ln_fast_approx<const PRECISION: usize>(self) -> Self;

    /// Approximate logarithm in an arbitrary base, as the quotient of two
    /// base-2 kernels.
    fn log_fast_approx<const PRECISION: usize>(self, base: Self) -> Self;
}

} // verus!
