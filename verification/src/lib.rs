//! Data-parallel exact and approximate elementary-function kernels.
//!
//! The crate provides three engines together with the glue that binds them:
//!
//! * an exact integer logarithm engine (`intlog`, `magic`) that computes
//!   `floor(log_base(x))` bit-exactly for unsigned integers of width
//!   8/16/32/64, using a fixed-point reciprocal-multiply-and-correct
//!   algorithm for large digit counts;
//! * a dynamic swizzle abstraction (`swizzle`) that gathers vector lanes
//!   through a fixed-width byte-permute primitive, with a capability signal
//!   for unsupported lane-count combinations;
//! * a sign conversion layer (`conv`) of bijective reinterpretations between
//!   same-width signed and unsigned element types.
//!
//! Lane-wise entry points that broadcast the scalar kernels across vector
//! lanes live in `lanes`. The approximate transcendental functions declare
//! their API in `approx`; their polynomial evaluation works on machine
//! floats and therefore stays with the caller, around the verified
//! bit-level decompositions of `float_bits`.

pub mod approx;
pub mod conv;
pub mod float_bits;
pub mod intlog;
pub mod lanes;
pub mod magic;
pub mod swizzle;

pub use approx::FastApprox;
pub use approx::FastApproxFloat;
pub use conv::Signed;
pub use conv::Unsigned;
pub use intlog::FastExactInt;
