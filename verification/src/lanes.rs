//! Lane-wise dispatch: broadcasts the scalar kernels across the lanes of a
//! vector value, and the one dedicated vector algorithm of the integer
//! power: a table lookup through the dynamic swizzle abstraction, with a
//! per-lane binary-exponentiation fallback when the lane-count combination
//! has no backing gather.

use crate::intlog::{ilog_by_division, ilog_core, ipow_u64, lemma_pow_le_iff};
use crate::swizzle::{dyn_swizzle_u64, lane_count_ok};
use vstd::arithmetic::logarithm::log;
use vstd::arithmetic::power::pow;
use vstd::arithmetic::power2::{lemma2_to64, lemma2_to64_rest};
use vstd::prelude::*;

verus! {

/// Exact integer logarithm of every lane of a 32-bit vector. The magic
/// constant pair for the base is derived once per call and shared by all
/// lanes.
pub fn ilog_const_base_lanes_u32(x: &Vec<u32>, base: u32) -> (r: Vec<u32>)
    requires
        2 <= base,
        forall|i: int| 0 <= i < x@.len() ==> #[trigger] x@[i] >= 1,
    ensures
        r@.len() == x@.len(),
        forall|i: int| 0 <= i < x@.len() ==> r@[i] == log(base as int, x@[i] as int),
{
    proof {
        lemma2_to64();
        lemma2_to64_rest();
    }
    let magic: Option<(u64, u32)> = if base == 2 {
        None
    } else {
        let max_w = crate::intlog::width_max_u64(32);
        let max_exp = ilog_by_division(base as u64, max_w);
        if max_exp > 10 {
            crate::magic::ilog_mul_shift(base as u64, 32)
        } else {
            None
        }
    };
    let mut r: Vec<u32> = Vec::new();
    let mut i: usize = 0;
    while i < x.len()
        invariant
            2 <= base,
            forall|t: int| 0 <= t < x@.len() ==> #[trigger] x@[t] >= 1,
            magic matches Some(p) ==> crate::magic::mul_shift_good(
                32nat,
                base as nat,
                p.0 as nat,
                p.1 as nat,
            ),
            i <= x@.len(),
            r@.len() == i,
            forall|t: int| 0 <= t < i ==> r@[t] == log(base as int, x@[t] as int),
        decreases x@.len() - i,
    {
        proof {
            lemma2_to64();
            lemma2_to64_rest();
        }
        let v: u32 = match magic {
            Some(p) => crate::intlog::ilog_with_magic(x[i] as u64, base as u64, 32, p.0, p.1),
            None => ilog_core(x[i] as u64, base as u64, 32),
        };
        r.push(v as u32);
        i = i + 1;
    }
    r
}

/// Exact integer logarithm of every lane of a 64-bit vector. The magic
/// constant pair for the base is derived once per call and shared by all
/// lanes.
pub fn ilog_const_base_lanes_u64(x: &Vec<u64>, base: u32) -> (r: Vec<u64>)
    requires
        2 <= base,
        forall|i: int| 0 <= i < x@.len() ==> #[trigger] x@[i] >= 1,
    ensures
        r@.len() == x@.len(),
        forall|i: int| 0 <= i < x@.len() ==> r@[i] == log(base as int, x@[i] as int),
{
    proof {
        lemma2_to64();
        lemma2_to64_rest();
    }
    let magic: Option<(u64, u32)> = if base == 2 {
        None
    } else {
        let max_w = crate::intlog::width_max_u64(64);
        let max_exp = ilog_by_division(base as u64, max_w);
        if max_exp > 10 {
            crate::magic::ilog_mul_shift(base as u64, 64)
        } else {
            None
        }
    };
    let mut r: Vec<u64> = Vec::new();
    let mut i: usize = 0;
    while i < x.len()
        invariant
            2 <= base,
            forall|t: int| 0 <= t < x@.len() ==> #[trigger] x@[t] >= 1,
            magic matches Some(p) ==> crate::magic::mul_shift_good(
                64nat,
                base as nat,
                p.0 as nat,
                p.1 as nat,
            ),
            i <= x@.len(),
            r@.len() == i,
            forall|t: int| 0 <= t < i ==> r@[t] == log(base as int, x@[t] as int),
        decreases x@.len() - i,
    {
        proof {
            lemma2_to64();
            lemma2_to64_rest();
        }
        let v: u32 = match magic {
            Some(p) => crate::intlog::ilog_with_magic(x[i], base as u64, 64, p.0, p.1),
            None => ilog_core(x[i], base as u64, 64),
        };
        r.push(v as u64);
        i = i + 1;
    }
    r
}

/// Exact integer power of every lane of a 64-bit vector: `r[i] ==
/// coeff^x[i]`. For a coefficient above 2 the powers are precomputed into a
/// table and the lanes are gathered through the dynamic swizzle
/// abstraction, exponents standing as indices; when that lane-count
/// combination has no backing gather, each lane falls back to binary
/// exponentiation.
pub fn exp_const_coeff_lanes_u64(x: &Vec<u64>, coeff: u32) -> (r: Vec<u64>)
    requires
        forall|i: int|
            0 <= i < x@.len() ==> pow(coeff as int, x@[i] as nat) <= u64::MAX,
    ensures
        r@.len() == x@.len(),
        forall|i: int| 0 <= i < x@.len() ==> r@[i] == pow(coeff as int, x@[i] as nat),
{
    if coeff <= 2 {
        return exp_lanes_fallback(x, coeff);
    }
    let max_exp: u32 = ilog_by_division(coeff as u64, u64::MAX);
    proof {
        assert forall|i: int| 0 <= i < x@.len() implies #[trigger] x@[i] <= max_exp by {
            lemma_pow_le_iff(coeff as int, u64::MAX as int, x@[i] as nat);
        }
    }
    // round the table up to a lane count the gather can take
    let mut table_len: usize = 1;
    while table_len < max_exp as usize + 1
        invariant
            lane_count_ok(table_len as nat),
            table_len <= 64,
            max_exp <= 63,
        decreases 64 - table_len,
    {
        table_len = table_len * 2;
    }
    let mut table: Vec<u64> = Vec::new();
    let mut e: usize = 0;
    while e < table_len
        invariant
            coeff > 2,
            max_exp == log(coeff as int, u64::MAX as int),
            e <= table_len,
            table@.len() == e,
            forall|t: int|
                0 <= t < e && t <= max_exp ==> table@[t] == pow(coeff as int, t as nat),
        decreases table_len - e,
    {
        if e <= max_exp as usize {
            proof {
                lemma_pow_le_iff(coeff as int, u64::MAX as int, e as nat);
            }
            table.push(ipow_u64(coeff as u64, e as u64));
        } else {
            table.push(0);
        }
        e = e + 1;
    }
    let mut idx: Vec<i64> = Vec::new();
    let mut k: usize = 0;
    while k < x.len()
        invariant
            forall|t: int| 0 <= t < x@.len() ==> #[trigger] x@[t] <= max_exp,
            max_exp <= 63,
            k <= x@.len(),
            idx@.len() == k,
            forall|t: int| 0 <= t < k ==> idx@[t] == x@[t],
        decreases x@.len() - k,
    {
        idx.push(x[k] as i64);
        k = k + 1;
    }
    let n = x.len();
    if n == 1 || n == 2 || n == 4 || n == 8 || n == 16 || n == 32 || n == 64 {
        if table_len > 1 {
            match dyn_swizzle_u64(&table, &idx) {
                Some(v) => {
                    proof {
                        assert forall|i: int| 0 <= i < x@.len() implies v@[i] == pow(
                            coeff as int,
                            x@[i] as nat,
                        ) by {
                            assert(idx@[i] == x@[i]);
                        }
                    }
                    return v;
                },
                None => {
                    return exp_lanes_fallback(x, coeff);
                },
            }
        }
    }
    exp_lanes_fallback(x, coeff)
}

/// Per-lane integer power by binary exponentiation: the fallback used when
/// no gather backs the power-table lookup.
fn exp_lanes_fallback(x: &Vec<u64>, coeff: u32) -> (r: Vec<u64>)
    requires
        forall|i: int|
            0 <= i < x@.len() ==> pow(coeff as int, x@[i] as nat) <= u64::MAX,
    ensures
        r@.len() == x@.len(),
        forall|i: int| 0 <= i < x@.len() ==> r@[i] == pow(coeff as int, x@[i] as nat),
{
    let mut r: Vec<u64> = Vec::new();
    let mut i: usize = 0;
    while i < x.len()
        invariant
            forall|t: int|
                0 <= t < x@.len() ==> pow(coeff as int, x@[t] as nat) <= u64::MAX,
            i <= x@.len(),
            r@.len() == i,
            forall|t: int| 0 <= t < i ==> r@[t] == pow(coeff as int, x@[t] as nat),
        decreases x@.len() - i,
    {
        let v = ipow_u64(coeff as u64, x[i]);
        r.push(v);
        i = i + 1;
    }
    r
}

} // verus!
