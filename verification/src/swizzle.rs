//! Dynamic swizzle abstraction: arbitrary-index gather across vectors of
//! possibly different lane counts.
//!
//! `gather(input, indices)[i] == input[indices[i]]` whenever the element
//! width and the two lane counts have a backing implementation; otherwise
//! the entry points return `None` as a capability signal, never an error.
//! The backing implementation addresses bytes, not lanes: lane indices are
//! expanded to byte indices (scaled by the element byte size, with one
//! additive offset per byte), both operands are resized by truncation or
//! lane repetition to the 16-byte operand width of the permute primitive,
//! the bytes are permuted, and the result is resized back.

use vstd::arithmetic::div_mod::{
    lemma_div_basics, lemma_fundamental_div_mod, lemma_fundamental_div_mod_converse,
    lemma_mod_bound, lemma_mod_breakdown, lemma_mod_multiples_vanish, lemma_small_mod,
};
use vstd::arithmetic::mul::{
    lemma_mul_inequality, lemma_mul_is_associative, lemma_mul_is_commutative,
    lemma_mul_is_distributive_add, lemma_mul_is_distributive_add_other_way,
    lemma_mul_nonnegative, lemma_mul_strict_inequality, lemma_mul_strict_inequality_converse,
    lemma_mul_strictly_positive,
};
use vstd::arithmetic::power2::{
    lemma2_to64, lemma2_to64_rest, lemma_pow2_adds, lemma_pow2_pos,
    lemma_pow2_strictly_increases, pow2,
};
use vstd::bits::{
    lemma_u64_low_bits_mask_is_mod, lemma_u64_shl_is_mul, lemma_u64_shr_is_div,
    lemma_low_bits_mask_values,
};
use vstd::prelude::*;

verus! {

/// Lane counts a vector value can have.
pub open spec fn lane_count_ok(n: nat) -> bool {
    n == 1 || n == 2 || n == 4 || n == 8 || n == 16 || n == 32 || n == 64
}

/// The lane-count combinations with a backing implementation for a given
/// element byte size: a one-lane input broadcasts, a one-lane output reads a
/// single lane directly, and everything else must fit the 16-byte operand
/// of the permute primitive on both sides.
pub open spec fn swizzle_supported(bytes_per_lane: nat, n: nat, m: nat) -> bool {
    ||| n == 1
    ||| m == 1
    ||| (bytes_per_lane * n <= 16 && bytes_per_lane * m <= 16)
}

/// Byte `j` of the little-endian encoding of `x`.
pub open spec fn lane_byte(x: nat, j: nat) -> u8 {
    ((x / pow2(8 * j)) % 256) as u8
}

/// Indices that resize a vector by truncation or lane repetition: entry `i`
/// reads input lane `i % input_lanes`.
pub fn create_resize_indices(input_lanes: usize, output_lanes: usize) -> (r: Vec<usize>)
    requires
        input_lanes >= 1,
    ensures
        r@.len() == output_lanes,
        forall|i: int| 0 <= i < output_lanes ==> r@[i] == i % (input_lanes as int),
{
    let mut r: Vec<usize> = Vec::new();
    let mut i: usize = 0;
    while i < output_lanes
        invariant
            input_lanes >= 1,
            i <= output_lanes,
            r@.len() == i,
            forall|k: int| 0 <= k < i ==> r@[k] == k % (input_lanes as int),
        decreases output_lanes - i,
    {
        r.push(i % input_lanes);
        i = i + 1;
    }
    r
}

/// Byte-index skeleton for the permute-backed gather: entry `k` names the
/// position of the low index byte of output lane `k / bytes_per_lane`
/// (repeating past `bytes_input`), and the additive part carries the byte
/// offset `k % bytes_per_lane` within each lane.
pub fn create_indices_additive(
    bytes_input: usize,
    bytes_output: usize,
    bytes_per_lane: usize,
) -> (r: (Vec<usize>, Vec<i8>))
    requires
        bytes_input >= 1,
        1 <= bytes_per_lane <= 16,
        bytes_output % bytes_per_lane == 0,
    ensures
        r.0@.len() == bytes_output,
        r.1@.len() == bytes_output,
        forall|k: int|
            0 <= k < bytes_output ==> r.0@[k] == (k - (k % (bytes_per_lane as int))) % (
            bytes_input as int),
        forall|k: int| 0 <= k < bytes_output ==> r.1@[k] == k % (bytes_per_lane as int),
{
    let mut indices: Vec<usize> = Vec::new();
    let mut additive: Vec<i8> = Vec::new();
    let mut i: usize = 0;
    while i < bytes_output
        invariant
            bytes_input >= 1,
            1 <= bytes_per_lane <= 16,
            bytes_output % bytes_per_lane == 0,
            i <= bytes_output,
            i % bytes_per_lane == 0,
            indices@.len() == i,
            additive@.len() == i,
            forall|k: int|
                0 <= k < i ==> indices@[k] == (k - (k % (bytes_per_lane as int))) % (
                bytes_input as int),
            forall|k: int| 0 <= k < i ==> additive@[k] == k % (bytes_per_lane as int),
        decreases bytes_output - i,
    {
        proof {
            // i + bytes_per_lane <= bytes_output: both sides are multiples
            // of the lane size and i is strictly below bytes_output
            let w = bytes_per_lane as int;
            lemma_fundamental_div_mod(bytes_output as int, w);
            lemma_fundamental_div_mod(i as int, w);
            let qi = (i as int) / w;
            let qo = (bytes_output as int) / w;
            lemma_mul_is_commutative(w, qi);
            lemma_mul_is_commutative(w, qo);
            lemma_mul_strict_inequality_converse(qi, qo, w);
            lemma_mul_inequality(qi + 1, qo, w);
            lemma_mul_is_distributive_add(w, qi, 1);
            lemma_mul_is_commutative(w, qi + 1);
            lemma_mul_is_commutative(w, qo);
        }
        let mut j: usize = 0;
        while j < bytes_per_lane
            invariant
                bytes_input >= 1,
                1 <= bytes_per_lane <= 16,
                bytes_output % bytes_per_lane == 0,
                i < bytes_output,
                i % bytes_per_lane == 0,
                i + bytes_per_lane <= bytes_output,
                j <= bytes_per_lane,
                indices@.len() == i + j,
                additive@.len() == i + j,
                forall|k: int|
                    0 <= k < i + j ==> indices@[k] == (k - (k % (bytes_per_lane as int))) % (
                    bytes_input as int),
                forall|k: int| 0 <= k < i + j ==> additive@[k] == k % (bytes_per_lane as int),
            decreases bytes_per_lane - j,
        {
            proof {
                // (i + j) % bytes_per_lane == j because bytes_per_lane | i
                let w = bytes_per_lane as int;
                lemma_mod_multiples_vanish((i as int) / w, j as int, w);
                lemma_fundamental_div_mod(i as int, w);
                lemma_small_mod(j as nat, bytes_per_lane as nat);
            }
            indices.push(i % bytes_input);
            additive.push(j as i8);
            j = j + 1;
        }
        proof {
            // the next outer position stays a multiple of the lane size
            let w = bytes_per_lane as int;
            lemma_mod_multiples_vanish((i as int) / w, w, w);
            lemma_fundamental_div_mod(i as int, w);
            vstd::arithmetic::div_mod::lemma_mod_self_0(w);
        }
        i = i + bytes_per_lane;
    }
    (indices, additive)
}

/// Gather with compile-time-fixed indices: entry `k` of the result is byte
/// `sel[k]` of the source.
fn select_bytes(src: &Vec<u8>, sel: &Vec<usize>) -> (r: Vec<u8>)
    requires
        forall|k: int| 0 <= k < sel@.len() ==> #[trigger] sel@[k] < src@.len(),
    ensures
        r@.len() == sel@.len(),
        forall|k: int| 0 <= k < sel@.len() ==> r@[k] == src@[sel@[k] as int],
{
    let mut r: Vec<u8> = Vec::new();
    let mut k: usize = 0;
    while k < sel.len()
        invariant
            forall|t: int| 0 <= t < sel@.len() ==> #[trigger] sel@[t] < src@.len(),
            k <= sel@.len(),
            r@.len() == k,
            forall|t: int| 0 <= t < k ==> r@[t] == src@[sel@[t] as int],
        decreases sel@.len() - k,
    {
        let b = src[sel[k]];
        r.push(b);
        k = k + 1;
    }
    r
}

/// The byte-permute primitive at its native 16-byte operand width: entry
/// `k` of the result is byte `idx[k]` of the source register.
fn permute16(src: &Vec<u8>, idx: &Vec<u8>) -> (r: Vec<u8>)
    requires
        src@.len() == 16,
        idx@.len() == 16,
        forall|k: int| 0 <= k < 16 ==> #[trigger] idx@[k] < 16,
    ensures
        r@.len() == 16,
        forall|k: int| 0 <= k < 16 ==> r@[k] == src@[idx@[k] as int],
{
    let mut r: Vec<u8> = Vec::new();
    let mut k: usize = 0;
    while k < 16
        invariant
            src@.len() == 16,
            idx@.len() == 16,
            forall|t: int| 0 <= t < 16 ==> #[trigger] idx@[t] < 16,
            k <= 16,
            r@.len() == k,
            forall|t: int| 0 <= t < k ==> r@[t] == src@[idx@[t] as int],
        decreases 16 - k,
    {
        let b = src[idx[k] as usize];
        r.push(b);
        k = k + 1;
    }
    r
}

/// Multiplying both operands of a remainder by the same factor scales the
/// remainder: `(t * w) % (m * w) == (t % m) * w`.
proof fn lemma_mul_mod_factored(t: int, m: int, w: int)
    requires
        t >= 0,
        m >= 1,
        w >= 1,
    ensures
        (t * w) % (m * w) == (t % m) * w,
{
    let q = t / m;
    let r = t % m;
    lemma_fundamental_div_mod(t, m);
    lemma_mod_bound(t, m);
    assert(t * w == (m * q + r) * w);
    lemma_mul_is_distributive_add_other_way(w, m * q, r);
    lemma_mul_is_associative(m, q, w);
    lemma_mul_is_commutative(q, w);
    lemma_mul_is_associative(m, w, q);
    assert(t * w == (m * w) * q + r * w);
    lemma_mul_strict_inequality(r, m, w);
    lemma_mul_nonnegative(r, w);
    lemma_mul_strictly_positive(m, w);
    assert(0 <= r * w < m * w);
    assert(t * w == (m * w) * q + r * w);
    lemma_fundamental_div_mod_converse(t * w, m * w, q, r * w);
}

/// Little-endian byte image of a vector of lanes, `w` bytes per lane: byte
/// `k` of the image is byte `k % w` of lane `k / w`.
fn lanes_to_bytes(lanes: &Vec<u64>, w: usize) -> (r: Vec<u8>)
    requires
        1 <= w <= 8,
    ensures
        r@.len() == lanes@.len() * w,
        forall|k: int|
            0 <= k < r@.len() ==> r@[k] == lane_byte(
                lanes@[k / (w as int)] as nat,
                (k % (w as int)) as nat,
            ),
{
    let mut r: Vec<u8> = Vec::new();
    let mut i: usize = 0;
    while i < lanes.len()
        invariant
            1 <= w <= 8,
            i <= lanes@.len(),
            r@.len() == i * w,
            forall|k: int|
                0 <= k < r@.len() ==> r@[k] == lane_byte(
                    lanes@[k / (w as int)] as nat,
                    (k % (w as int)) as nat,
                ),
        decreases lanes@.len() - i,
    {
        let x = lanes[i];
        let mut j: usize = 0;
        while j < w
            invariant
                1 <= w <= 8,
                i < lanes@.len(),
                x == lanes@[i as int],
                j <= w,
                r@.len() == i * w + j,
                forall|k: int|
                    0 <= k < r@.len() ==> r@[k] == lane_byte(
                        lanes@[k / (w as int)] as nat,
                        (k % (w as int)) as nat,
                    ),
            decreases w - j,
        {
            proof {
                lemma2_to64();
                lemma_u64_shr_is_div(x, (8 * j) as u64);
                lemma_u64_low_bits_mask_is_mod(x >> ((8 * j) as u64), 8);
                lemma_low_bits_mask_values();
                // the byte lands at position i * w + j
                lemma_mul_nonnegative(i as int, w as int);
                lemma_fundamental_div_mod_converse(
                    (i * w + j) as int,
                    w as int,
                    i as int,
                    j as int,
                );
            }
            let b: u8 = ((x >> ((8 * j) as u64)) & 0xFF) as u8;
            r.push(b);
            j = j + 1;
        }
        proof {
            lemma_mul_is_distributive_add_other_way(w as int, i as int, 1);
        }
        i = i + 1;
    }
    r
}

/// The permute-backed gather at byte granularity: expands lane indices to
/// byte indices through `create_indices_additive`, resizes both operands to
/// the 16-byte width of the permute primitive with `create_resize_indices`,
/// permutes, resizes the result back, and reassembles the output lanes from
/// their little-endian bytes.
fn gather_via_permute(lanes: &Vec<u64>, indices: &Vec<u64>, w: usize) -> (r: Vec<u64>)
    requires
        w == 1 || w == 2 || w == 4 || w == 8,
        1 <= lanes@.len(),
        1 <= indices@.len(),
        lanes@.len() * w <= 16,
        indices@.len() * w <= 16,
        forall|i: int| 0 <= i < indices@.len() ==> #[trigger] indices@[i] < lanes@.len(),
        forall|i: int| 0 <= i < lanes@.len() ==> #[trigger] lanes@[i] < pow2((8 * w) as nat),
    ensures
        r@.len() == indices@.len(),
        forall|i: int| 0 <= i < indices@.len() ==> r@[i] == lanes@[indices@[i] as int],
{
    let ghost n = lanes@.len() as int;
    let ghost m = indices@.len() as int;
    proof {
        lemma_mul_inequality(1, n, w as int);
        lemma_mul_inequality(1, m, w as int);
        lemma_mul_is_commutative(n, w as int);
        lemma_mul_is_commutative(m, w as int);
    }
    let bytes_in: usize = lanes.len() * w;
    let bytes_out: usize = indices.len() * w;
    let bytes_max: usize = if bytes_in > bytes_out {
        bytes_in
    } else {
        bytes_out
    };
    let input_bytes = lanes_to_bytes(lanes, w);
    let index_bytes = lanes_to_bytes(indices, w);
    proof {
        // bytes_max is a multiple of the lane size
        let t = if bytes_in > bytes_out {
            n
        } else {
            m
        };
        lemma_mod_multiples_vanish(t, 0, w as int);
        lemma_small_mod(0, w as nat);
    }
    let ia = create_indices_additive(bytes_out, bytes_max, w);
    proof {
        assert forall|k: int| 0 <= k < ia.0@.len() implies #[trigger] ia.0@[k]
            < index_bytes@.len() by {
            lemma_mod_bound(k - (k % (w as int)), bytes_out as int);
        }
    }
    let low = select_bytes(&index_bytes, &ia.0);

    // scale to byte indices and add the per-byte offsets
    let mut byte_idx: Vec<u8> = Vec::new();
    let mut k: usize = 0;
    while k < bytes_max
        invariant
            w == 1 || w == 2 || w == 4 || w == 8,
            n == lanes@.len(),
            m == indices@.len(),
            1 <= n,
            1 <= m,
            n * w <= 16,
            m * w <= 16,
            bytes_in == n * w,
            bytes_out == m * w,
            bytes_max == if bytes_in > bytes_out {
                bytes_in
            } else {
                bytes_out
            },
            forall|i: int| 0 <= i < m ==> #[trigger] indices@[i] < n,
            low@.len() == bytes_max,
            forall|t: int|
                0 <= t < bytes_max ==> low@[t] == index_bytes@[(t - (t % (w as int))) % (
                bytes_out as int)],
            ia.1@.len() == bytes_max,
            forall|t: int| 0 <= t < bytes_max ==> ia.1@[t] == t % (w as int),
            index_bytes@.len() == bytes_out,
            forall|t: int|
                0 <= t < bytes_out ==> index_bytes@[t] == lane_byte(
                    indices@[t / (w as int)] as nat,
                    (t % (w as int)) as nat,
                ),
            k <= bytes_max,
            byte_idx@.len() == k,
            forall|t: int|
                0 <= t < k ==> #[trigger] byte_idx@[t] == indices@[((t / (w as int)) % m) as int]
                    * w + t % (w as int),
            forall|t: int| 0 <= t < k ==> #[trigger] byte_idx@[t] < n * w,
        decreases bytes_max - k,
    {
        proof {
            let ki = k as int;
            let wi = w as int;
            let t = ki / wi;
            let j = ki % wi;
            lemma_mod_bound(ki, wi);
            // position of the low index byte: (t * w) % (m * w)
            lemma_fundamental_div_mod(ki, wi);
            lemma_mul_mod_factored(t, m, wi);
            lemma_mod_bound(t, m);
            lemma_mul_nonnegative((t % m) as int, wi);
            lemma_fundamental_div_mod_converse((t % m) * wi, wi, t % m, 0);
            // the low byte of a small index is the index itself
            assert(pow2(0) == 1) by {
                lemma2_to64();
            }
            lemma_div_basics(indices@[t % m] as int);
            lemma_small_mod(indices@[t % m] as nat, 256);
            assert(lane_byte(indices@[t % m] as nat, 0) == indices@[t % m]);
            assert(low@[ki] == indices@[t % m]);
            // the scaled byte index stays inside the input register
            lemma_mul_strict_inequality(indices@[t % m] as int, n, wi);
        }
        let b: u8 = low[k] * (w as u8) + (ia.1[k] as u8);
        byte_idx.push(b);
        k = k + 1;
    }

    let in16 = select_bytes(&input_bytes, &create_resize_indices(bytes_in, 16));
    proof {
        assert forall|t: int| 0 <= t < 16 implies #[trigger] (t % (bytes_in as int)) < input_bytes@.len() by {
            lemma_mod_bound(t, bytes_in as int);
        }
    }
    let bi16 = select_bytes(&byte_idx, &create_resize_indices(bytes_max, 16));
    proof {
        assert forall|t: int| 0 <= t < 16 implies #[trigger] (t % (bytes_max as int)) < byte_idx@.len() by {
            lemma_mod_bound(t, bytes_max as int);
        }
        assert forall|t: int| 0 <= t < 16 implies #[trigger] bi16@[t] < 16 by {
            lemma_mod_bound(t, bytes_max as int);
        }
    }
    let out16 = permute16(&in16, &bi16);
    let out_bytes = select_bytes(&out16, &create_resize_indices(16, bytes_out));
    proof {
        assert forall|t: int| 0 <= t < bytes_out implies #[trigger] (t % 16int) < out16@.len() by {
            lemma_mod_bound(t, 16);
        }
    }

    // reassemble the gathered lanes from their little-endian bytes
    let mut out: Vec<u64> = Vec::new();
    let mut i: usize = 0;
    while i < indices.len()
        invariant
            w == 1 || w == 2 || w == 4 || w == 8,
            n == lanes@.len(),
            m == indices@.len(),
            1 <= n,
            1 <= m,
            n * w <= 16,
            m * w <= 16,
            bytes_in == n * w,
            bytes_out == m * w,
            bytes_max == if bytes_in > bytes_out {
                bytes_in
            } else {
                bytes_out
            },
            forall|t: int| 0 <= t < m ==> #[trigger] indices@[t] < n,
            forall|t: int| 0 <= t < n ==> #[trigger] lanes@[t] < pow2((8 * w) as nat),
            out_bytes@.len() == bytes_out,
            forall|t: int|
                0 <= t < bytes_out ==> #[trigger] out_bytes@[t] == out16@[(t % 16int) as int],
            out16@.len() == 16,
            forall|t: int| 0 <= t < 16 ==> #[trigger] out16@[t] == in16@[bi16@[t] as int],
            bi16@.len() == 16,
            forall|t: int|
                0 <= t < 16 ==> #[trigger] bi16@[t] == byte_idx@[(t % (bytes_max as int)) as int],
            byte_idx@.len() == bytes_max,
            forall|t: int|
                0 <= t < bytes_max ==> #[trigger] byte_idx@[t] == indices@[((t / (w as int))
                    % m) as int] * w + t % (w as int),
            forall|t: int| 0 <= t < bytes_max ==> #[trigger] byte_idx@[t] < n * w,
            in16@.len() == 16,
            forall|t: int|
                0 <= t < 16 ==> #[trigger] in16@[t] == input_bytes@[(t % (bytes_in as int)) as int],
            input_bytes@.len() == bytes_in,
            forall|t: int|
                0 <= t < bytes_in ==> #[trigger] input_bytes@[t] == lane_byte(
                    lanes@[t / (w as int)] as nat,
                    (t % (w as int)) as nat,
                ),
            i <= m,
            out@.len() == i,
            forall|t: int| 0 <= t < i ==> out@[t] == lanes@[indices@[t] as int],
        decreases m - i,
    {
        let ghost target = lanes@[indices@[i as int] as int] as nat;
        let mut acc: u64 = 0;
        let mut j: usize = 0;
        proof {
            lemma2_to64();
            lemma_small_mod(0, 1);
        }
        while j < w
            invariant
                w == 1 || w == 2 || w == 4 || w == 8,
                n == lanes@.len(),
                m == indices@.len(),
                i < m,
                n * w <= 16,
                m * w <= 16,
                bytes_in == n * w,
                bytes_out == m * w,
                bytes_max == if bytes_in > bytes_out {
                    bytes_in
                } else {
                    bytes_out
                },
                forall|t: int| 0 <= t < m ==> #[trigger] indices@[t] < n,
                forall|t: int| 0 <= t < n ==> #[trigger] lanes@[t] < pow2((8 * w) as nat),
                target == lanes@[indices@[i as int] as int] as nat,
                target < pow2((8 * w) as nat),
                out_bytes@.len() == bytes_out,
                forall|t: int|
                    0 <= t < bytes_out ==> #[trigger] out_bytes@[t] == out16@[(t % 16int) as int],
                out16@.len() == 16,
                forall|t: int| 0 <= t < 16 ==> #[trigger] out16@[t] == in16@[bi16@[t] as int],
                bi16@.len() == 16,
                forall|t: int|
                    0 <= t < 16 ==> #[trigger] bi16@[t] == byte_idx@[(t % (
                    bytes_max as int)) as int],
                byte_idx@.len() == bytes_max,
                forall|t: int|
                    0 <= t < bytes_max ==> #[trigger] byte_idx@[t] == indices@[((t / (w as int))
                        % m) as int] * w + t % (w as int),
                forall|t: int| 0 <= t < bytes_max ==> #[trigger] byte_idx@[t] < n * w,
                in16@.len() == 16,
                forall|t: int|
                    0 <= t < 16 ==> #[trigger] in16@[t] == input_bytes@[(t % (
                    bytes_in as int)) as int],
                input_bytes@.len() == bytes_in,
                forall|t: int|
                    0 <= t < bytes_in ==> #[trigger] input_bytes@[t] == lane_byte(
                        lanes@[t / (w as int)] as nat,
                        (t % (w as int)) as nat,
                    ),
                j <= w,
                acc == target % pow2((8 * j) as nat),
            decreases w - j,
        {
            proof {
                lemma2_to64();
                let ki = (i * w + j) as int;
                let wi = w as int;
                // i * w + j stays inside the output image
                lemma_mul_nonnegative(i as int, wi);
                lemma_mul_strict_inequality(i as int, m, wi);
                lemma_mul_is_distributive_add_other_way(wi, i as int, 1);
                lemma_mul_inequality(i as int + 1, m, wi);
                lemma_fundamental_div_mod_converse(ki, wi, i as int, j as int);
                // walk the byte through the resize and permute stages
                lemma_small_mod(ki as nat, 16);
                lemma_small_mod(ki as nat, bytes_max as nat);
                lemma_small_mod(i as nat, m as nat);
                let p = indices@[i as int] * wi + j;
                lemma_mul_nonnegative(indices@[i as int] as int, wi);
                lemma_mul_strict_inequality(indices@[i as int] as int, n, wi);
                lemma_small_mod(p as nat, bytes_in as nat);
                lemma_fundamental_div_mod_converse(p, wi, indices@[i as int] as int, j as int);
            }
            let b: u8 = out_bytes[i * w + j];
            proof {
                assert(b == lane_byte(target, j as nat));
                // accumulate: target % 2^(8(j+1)) ==
                //   2^(8j) * ((target / 2^(8j)) % 256) + target % 2^(8j)
                lemma_pow2_pos((8 * j) as nat);
                lemma_mod_breakdown(target as int, pow2((8 * j) as nat) as int, 256);
                lemma_pow2_adds((8 * j) as nat, 8);
                lemma2_to64_rest();
                if 8 * j + 8 < 64 {
                    lemma_pow2_strictly_increases((8 * j + 8) as nat, 64);
                }
                lemma_mul_strict_inequality(b as int, 256, pow2((8 * j) as nat) as int);
                lemma_mul_is_commutative(b as int, pow2((8 * j) as nat) as int);
                lemma_mod_bound(target as int, pow2((8 * j) as nat) as int);
                lemma_u64_shl_is_mul(b as u64, (8 * j) as u64);
            }
            acc = acc + ((b as u64) << ((8 * j) as u64));
            j = j + 1;
        }
        proof {
            lemma_small_mod(target, pow2((8 * w) as nat));
        }
        out.push(acc);
        i = i + 1;
    }
    out
}

/// Dispatch over the lane-count combination, on lanes widened to 64 bits:
/// a one-lane input broadcasts without permuting, a one-lane output reads
/// the addressed lane directly, combinations fitting the permute operand
/// go through the byte permute, and everything else reports `None`.
fn dyn_swizzle_lanes(input: &Vec<u64>, indices: &Vec<u64>, w: usize) -> (r: Option<Vec<u64>>)
    requires
        w == 1 || w == 2 || w == 4 || w == 8,
        lane_count_ok(input@.len() as nat),
        lane_count_ok(indices@.len() as nat),
        forall|i: int| 0 <= i < input@.len() ==> #[trigger] input@[i] < pow2((8 * w) as nat),
        input@.len() == 1 || forall|i: int|
            0 <= i < indices@.len() ==> #[trigger] indices@[i] < input@.len(),
    ensures
        match r {
            Some(v) => {
                &&& swizzle_supported(w as nat, input@.len() as nat, indices@.len() as nat)
                &&& v@.len() == indices@.len()
                &&& forall|i: int|
                    0 <= i < indices@.len() ==> v@[i] == (if input@.len() == 1 {
                        input@[0]
                    } else {
                        input@[indices@[i] as int]
                    })
            },
            None => !swizzle_supported(w as nat, input@.len() as nat, indices@.len() as nat),
        },
{
    let n = input.len();
    let m = indices.len();
    if n == 1 {
        let lane = input[0];
        let mut out: Vec<u64> = Vec::new();
        let mut i: usize = 0;
        while i < m
            invariant
                i <= m,
                out@.len() == i,
                forall|t: int| 0 <= t < i ==> out@[t] == lane,
            decreases m - i,
        {
            out.push(lane);
            i = i + 1;
        }
        Some(out)
    } else if m == 1 {
        let idx = indices[0] as usize;
        let mut out: Vec<u64> = Vec::new();
        out.push(input[idx]);
        Some(out)
    } else if n * w <= 16 && m * w <= 16 {
        proof {
            lemma_mul_is_commutative(n as int, w as int);
            lemma_mul_is_commutative(m as int, w as int);
        }
        Some(gather_via_permute(input, indices, w))
    } else {
        proof {
            lemma_mul_is_commutative(n as int, w as int);
            lemma_mul_is_commutative(m as int, w as int);
        }
        None
    }
}


/// Arbitrary-index gather for 8-bit unsigned lanes: lane `i` of the
/// result is lane `indices[i]` of the input whenever the lane-count
/// combination has a backing implementation; `None` is the capability
/// signal for combinations that have none. A one-lane input broadcasts its
/// lane whatever the index vector holds.
pub fn dyn_swizzle_u8(input: &Vec<u8>, indices: &Vec<i8>) -> (r: Option<Vec<u8>>)
    requires
        lane_count_ok(input@.len() as nat),
        lane_count_ok(indices@.len() as nat),
        input@.len() == 1 || forall|i: int|
            0 <= i < indices@.len() ==> 0 <= #[trigger] indices@[i] < input@.len(),
    ensures
        match r {
            Some(v) => {
                &&& swizzle_supported(1, input@.len() as nat, indices@.len() as nat)
                &&& v@.len() == indices@.len()
                &&& forall|i: int|
                    0 <= i < indices@.len() ==> v@[i] == (if input@.len() == 1 {
                        input@[0]
                    } else {
                        input@[indices@[i] as int]
                    })
            },
            None => !swizzle_supported(1, input@.len() as nat, indices@.len() as nat),
        },
{
    let mut in64: Vec<u64> = Vec::new();
    let mut i: usize = 0;
    while i < input.len()
        invariant
            i <= input@.len(),
            in64@.len() == i,
            forall|t: int| 0 <= t < i ==> in64@[t] == input@[t] as u64,
        decreases input@.len() - i,
    {
        in64.push(input[i] as u64);
        i = i + 1;
    }
    let mut idx64: Vec<u64> = Vec::new();
    let mut k: usize = 0;
    while k < indices.len()
        invariant
            input@.len() == 1 || forall|t: int|
                0 <= t < indices@.len() ==> 0 <= #[trigger] indices@[t] < input@.len(),
            k <= indices@.len(),
            idx64@.len() == k,
            input@.len() == 1 || forall|t: int|
                0 <= t < k ==> #[trigger] idx64@[t] == indices@[t],
        decreases indices@.len() - k,
    {
        idx64.push(indices[k] as u64);
        k = k + 1;
    }
    proof {
        lemma2_to64();
        lemma2_to64_rest();
    }
    match dyn_swizzle_lanes(&in64, &idx64, 1) {
        Some(v64) => {
            let mut out: Vec<u8> = Vec::new();
            let mut t: usize = 0;
            while t < v64.len()
                invariant
                    in64@.len() == input@.len(),
                    idx64@.len() == indices@.len(),
                    v64@.len() == indices@.len(),
                    forall|s: int| 0 <= s < input@.len() ==> in64@[s] == input@[s] as u64,
                    input@.len() == 1 || forall|s: int|
                        0 <= s < indices@.len() ==> 0 <= #[trigger] indices@[s] < input@.len(),
                    input@.len() == 1 || forall|s: int|
                        0 <= s < indices@.len() ==> #[trigger] idx64@[s] == indices@[s],
                    forall|s: int|
                        0 <= s < v64@.len() ==> v64@[s] == (if in64@.len() == 1 {
                            in64@[0]
                        } else {
                            in64@[idx64@[s] as int]
                        }),
                    t <= v64@.len(),
                    out@.len() == t,
                    forall|s: int|
                        0 <= s < t ==> out@[s] == (if input@.len() == 1 {
                            input@[0]
                        } else {
                            input@[indices@[s] as int]
                        }),
                decreases v64@.len() - t,
            {
                out.push(v64[t] as u8);
                t = t + 1;
            }
            Some(out)
        },
        None => None,
    }
}

/// Arbitrary-index gather for 16-bit unsigned lanes: lane `i` of the
/// result is lane `indices[i]` of the input whenever the lane-count
/// combination has a backing implementation; `None` is the capability
/// signal for combinations that have none. A one-lane input broadcasts its
/// lane whatever the index vector holds.
pub fn dyn_swizzle_u16(input: &Vec<u16>, indices: &Vec<i16>) -> (r: Option<Vec<u16>>)
    requires
        lane_count_ok(input@.len() as nat),
        lane_count_ok(indices@.len() as nat),
        input@.len() == 1 || forall|i: int|
            0 <= i < indices@.len() ==> 0 <= #[trigger] indices@[i] < input@.len(),
    ensures
        match r {
            Some(v) => {
                &&& swizzle_supported(2, input@.len() as nat, indices@.len() as nat)
                &&& v@.len() == indices@.len()
                &&& forall|i: int|
                    0 <= i < indices@.len() ==> v@[i] == (if input@.len() == 1 {
                        input@[0]
                    } else {
                        input@[indices@[i] as int]
                    })
            },
            None => !swizzle_supported(2, input@.len() as nat, indices@.len() as nat),
        },
{
    let mut in64: Vec<u64> = Vec::new();
    let mut i: usize = 0;
    while i < input.len()
        invariant
            i <= input@.len(),
            in64@.len() == i,
            forall|t: int| 0 <= t < i ==> in64@[t] == input@[t] as u64,
        decreases input@.len() - i,
    {
        in64.push(input[i] as u64);
        i = i + 1;
    }
    let mut idx64: Vec<u64> = Vec::new();
    let mut k: usize = 0;
    while k < indices.len()
        invariant
            input@.len() == 1 || forall|t: int|
                0 <= t < indices@.len() ==> 0 <= #[trigger] indices@[t] < input@.len(),
            k <= indices@.len(),
            idx64@.len() == k,
            input@.len() == 1 || forall|t: int|
                0 <= t < k ==> #[trigger] idx64@[t] == indices@[t],
        decreases indices@.len() - k,
    {
        idx64.push(indices[k] as u64);
        k = k + 1;
    }
    proof {
        lemma2_to64();
        lemma2_to64_rest();
    }
    match dyn_swizzle_lanes(&in64, &idx64, 2) {
        Some(v64) => {
            let mut out: Vec<u16> = Vec::new();
            let mut t: usize = 0;
            while t < v64.len()
                invariant
                    in64@.len() == input@.len(),
                    idx64@.len() == indices@.len(),
                    v64@.len() == indices@.len(),
                    forall|s: int| 0 <= s < input@.len() ==> in64@[s] == input@[s] as u64,
                    input@.len() == 1 || forall|s: int|
                        0 <= s < indices@.len() ==> 0 <= #[trigger] indices@[s] < input@.len(),
                    input@.len() == 1 || forall|s: int|
                        0 <= s < indices@.len() ==> #[trigger] idx64@[s] == indices@[s],
                    forall|s: int|
                        0 <= s < v64@.len() ==> v64@[s] == (if in64@.len() == 1 {
                            in64@[0]
                        } else {
                            in64@[idx64@[s] as int]
                        }),
                    t <= v64@.len(),
                    out@.len() == t,
                    forall|s: int|
                        0 <= s < t ==> out@[s] == (if input@.len() == 1 {
                            input@[0]
                        } else {
                            input@[indices@[s] as int]
                        }),
                decreases v64@.len() - t,
            {
                out.push(v64[t] as u16);
                t = t + 1;
            }
            Some(out)
        },
        None => None,
    }
}

/// Arbitrary-index gather for 32-bit unsigned lanes: lane `i` of the
/// result is lane `indices[i]` of the input whenever the lane-count
/// combination has a backing implementation; `None` is the capability
/// signal for combinations that have none. A one-lane input broadcasts its
/// lane whatever the index vector holds.
pub fn dyn_swizzle_u32(input: &Vec<u32>, indices: &Vec<i32>) -> (r: Option<Vec<u32>>)
    requires
        lane_count_ok(input@.len() as nat),
        lane_count_ok(indices@.len() as nat),
        input@.len() == 1 || forall|i: int|
            0 <= i < indices@.len() ==> 0 <= #[trigger] indices@[i] < input@.len(),
    ensures
        match r {
            Some(v) => {
                &&& swizzle_supported(4, input@.len() as nat, indices@.len() as nat)
                &&& v@.len() == indices@.len()
                &&& forall|i: int|
                    0 <= i < indices@.len() ==> v@[i] == (if input@.len() == 1 {
                        input@[0]
                    } else {
                        input@[indices@[i] as int]
                    })
            },
            None => !swizzle_supported(4, input@.len() as nat, indices@.len() as nat),
        },
{
    let mut in64: Vec<u64> = Vec::new();
    let mut i: usize = 0;
    while i < input.len()
        invariant
            i <= input@.len(),
            in64@.len() == i,
            forall|t: int| 0 <= t < i ==> in64@[t] == input@[t] as u64,
        decreases input@.len() - i,
    {
        in64.push(input[i] as u64);
        i = i + 1;
    }
    let mut idx64: Vec<u64> = Vec::new();
    let mut k: usize = 0;
    while k < indices.len()
        invariant
            input@.len() == 1 || forall|t: int|
                0 <= t < indices@.len() ==> 0 <= #[trigger] indices@[t] < input@.len(),
            k <= indices@.len(),
            idx64@.len() == k,
            input@.len() == 1 || forall|t: int|
                0 <= t < k ==> #[trigger] idx64@[t] == indices@[t],
        decreases indices@.len() - k,
    {
        idx64.push(indices[k] as u64);
        k = k + 1;
    }
    proof {
        lemma2_to64();
        lemma2_to64_rest();
    }
    match dyn_swizzle_lanes(&in64, &idx64, 4) {
        Some(v64) => {
            let mut out: Vec<u32> = Vec::new();
            let mut t: usize = 0;
            while t < v64.len()
                invariant
                    in64@.len() == input@.len(),
                    idx64@.len() == indices@.len(),
                    v64@.len() == indices@.len(),
                    forall|s: int| 0 <= s < input@.len() ==> in64@[s] == input@[s] as u64,
                    input@.len() == 1 || forall|s: int|
                        0 <= s < indices@.len() ==> 0 <= #[trigger] indices@[s] < input@.len(),
                    input@.len() == 1 || forall|s: int|
                        0 <= s < indices@.len() ==> #[trigger] idx64@[s] == indices@[s],
                    forall|s: int|
                        0 <= s < v64@.len() ==> v64@[s] == (if in64@.len() == 1 {
                            in64@[0]
                        } else {
                            in64@[idx64@[s] as int]
                        }),
                    t <= v64@.len(),
                    out@.len() == t,
                    forall|s: int|
                        0 <= s < t ==> out@[s] == (if input@.len() == 1 {
                            input@[0]
                        } else {
                            input@[indices@[s] as int]
                        }),
                decreases v64@.len() - t,
            {
                out.push(v64[t] as u32);
                t = t + 1;
            }
            Some(out)
        },
        None => None,
    }
}

/// Arbitrary-index gather for 64-bit unsigned lanes: lane `i` of the
/// result is lane `indices[i]` of the input whenever the lane-count
/// combination has a backing implementation; `None` is the capability
/// signal for combinations that have none. A one-lane input broadcasts its
/// lane whatever the index vector holds.
pub fn dyn_swizzle_u64(input: &Vec<u64>, indices: &Vec<i64>) -> (r: Option<Vec<u64>>)
    requires
        lane_count_ok(input@.len() as nat),
        lane_count_ok(indices@.len() as nat),
        input@.len() == 1 || forall|i: int|
            0 <= i < indices@.len() ==> 0 <= #[trigger] indices@[i] < input@.len(),
    ensures
        match r {
            Some(v) => {
                &&& swizzle_supported(8, input@.len() as nat, indices@.len() as nat)
                &&& v@.len() == indices@.len()
                &&& forall|i: int|
                    0 <= i < indices@.len() ==> v@[i] == (if input@.len() == 1 {
                        input@[0]
                    } else {
                        input@[indices@[i] as int]
                    })
            },
            None => !swizzle_supported(8, input@.len() as nat, indices@.len() as nat),
        },
{
    let mut in64: Vec<u64> = Vec::new();
    let mut i: usize = 0;
    while i < input.len()
        invariant
            i <= input@.len(),
            in64@.len() == i,
            forall|t: int| 0 <= t < i ==> in64@[t] == input@[t] as u64,
        decreases input@.len() - i,
    {
        in64.push(input[i] as u64);
        i = i + 1;
    }
    let mut idx64: Vec<u64> = Vec::new();
    let mut k: usize = 0;
    while k < indices.len()
        invariant
            input@.len() == 1 || forall|t: int|
                0 <= t < indices@.len() ==> 0 <= #[trigger] indices@[t] < input@.len(),
            k <= indices@.len(),
            idx64@.len() == k,
            input@.len() == 1 || forall|t: int|
                0 <= t < k ==> #[trigger] idx64@[t] == indices@[t],
        decreases indices@.len() - k,
    {
        idx64.push(indices[k] as u64);
        k = k + 1;
    }
    proof {
        lemma2_to64();
        lemma2_to64_rest();
    }
    match dyn_swizzle_lanes(&in64, &idx64, 8) {
        Some(v64) => {
            let mut out: Vec<u64> = Vec::new();
            let mut t: usize = 0;
            while t < v64.len()
                invariant
                    in64@.len() == input@.len(),
                    idx64@.len() == indices@.len(),
                    v64@.len() == indices@.len(),
                    forall|s: int| 0 <= s < input@.len() ==> in64@[s] == input@[s] as u64,
                    input@.len() == 1 || forall|s: int|
                        0 <= s < indices@.len() ==> 0 <= #[trigger] indices@[s] < input@.len(),
                    input@.len() == 1 || forall|s: int|
                        0 <= s < indices@.len() ==> #[trigger] idx64@[s] == indices@[s],
                    forall|s: int|
                        0 <= s < v64@.len() ==> v64@[s] == (if in64@.len() == 1 {
                            in64@[0]
                        } else {
                            in64@[idx64@[s] as int]
                        }),
                    t <= v64@.len(),
                    out@.len() == t,
                    forall|s: int|
                        0 <= s < t ==> out@[s] == (if input@.len() == 1 {
                            input@[0]
                        } else {
                            input@[indices@[s] as int]
                        }),
                decreases v64@.len() - t,
            {
                out.push(v64[t] as u64);
                t = t + 1;
            }
            Some(out)
        },
        None => None,
    }
}

/// Arbitrary-index gather for 8-bit signed lanes, through the sign
/// conversion layer and the unsigned gather of the same width: lane `i` of
/// the result is lane `indices[i]` of the input whenever the lane-count
/// combination has a backing implementation; `None` is the capability
/// signal for combinations that have none. A one-lane input broadcasts its
/// lane whatever the index vector holds.
pub fn dyn_swizzle_i8(input: &Vec<i8>, indices: &Vec<i8>) -> (r: Option<Vec<i8>>)
    requires
        lane_count_ok(input@.len() as nat),
        lane_count_ok(indices@.len() as nat),
        input@.len() == 1 || forall|i: int|
            0 <= i < indices@.len() ==> 0 <= #[trigger] indices@[i] < input@.len(),
    ensures
        match r {
            Some(v) => {
                &&& swizzle_supported(1, input@.len() as nat, indices@.len() as nat)
                &&& v@.len() == indices@.len()
                &&& forall|i: int|
                    0 <= i < indices@.len() ==> v@[i] == (if input@.len() == 1 {
                        input@[0]
                    } else {
                        input@[indices@[i] as int]
                    })
            },
            None => !swizzle_supported(1, input@.len() as nat, indices@.len() as nat),
        },
{
    let mut inu: Vec<u8> = Vec::new();
    let mut i: usize = 0;
    while i < input.len()
        invariant
            i <= input@.len(),
            inu@.len() == i,
            forall|t: int| 0 <= t < i ==> inu@[t] == input@[t] as u8,
        decreases input@.len() - i,
    {
        inu.push(input[i] as u8);
        i = i + 1;
    }
    match dyn_swizzle_u8(&inu, indices) {
        Some(vu) => {
            let mut out: Vec<i8> = Vec::new();
            let mut t: usize = 0;
            while t < vu.len()
                invariant
                    inu@.len() == input@.len(),
                    vu@.len() == indices@.len(),
                    forall|s: int| 0 <= s < input@.len() ==> inu@[s] == input@[s] as u8,
                    input@.len() == 1 || forall|s: int|
                        0 <= s < indices@.len() ==> 0 <= #[trigger] indices@[s] < input@.len(),
                    forall|s: int|
                        0 <= s < vu@.len() ==> vu@[s] == (if inu@.len() == 1 {
                            inu@[0]
                        } else {
                            inu@[indices@[s] as int]
                        }),
                    t <= vu@.len(),
                    out@.len() == t,
                    forall|s: int|
                        0 <= s < t ==> out@[s] == (if input@.len() == 1 {
                            input@[0]
                        } else {
                            input@[indices@[s] as int]
                        }),
                decreases vu@.len() - t,
            {
                proof {
                    let ghost src: i8 = if input@.len() == 1 {
                        input@[0]
                    } else {
                        input@[indices@[t as int] as int]
                    };
                    assert((src as u8) as i8 == src) by (bit_vector);
                }
                out.push(vu[t] as i8);
                t = t + 1;
            }
            Some(out)
        },
        None => None,
    }
}

/// Arbitrary-index gather for 16-bit signed lanes, through the sign
/// conversion layer and the unsigned gather of the same width: lane `i` of
/// the result is lane `indices[i]` of the input whenever the lane-count
/// combination has a backing implementation; `None` is the capability
/// signal for combinations that have none. A one-lane input broadcasts its
/// lane whatever the index vector holds.
pub fn dyn_swizzle_i16(input: &Vec<i16>, indices: &Vec<i16>) -> (r: Option<Vec<i16>>)
    requires
        lane_count_ok(input@.len() as nat),
        lane_count_ok(indices@.len() as nat),
        input@.len() == 1 || forall|i: int|
            0 <= i < indices@.len() ==> 0 <= #[trigger] indices@[i] < input@.len(),
    ensures
        match r {
            Some(v) => {
                &&& swizzle_supported(2, input@.len() as nat, indices@.len() as nat)
                &&& v@.len() == indices@.len()
                &&& forall|i: int|
                    0 <= i < indices@.len() ==> v@[i] == (if input@.len() == 1 {
                        input@[0]
                    } else {
                        input@[indices@[i] as int]
                    })
            },
            None => !swizzle_supported(2, input@.len() as nat, indices@.len() as nat),
        },
{
    let mut inu: Vec<u16> = Vec::new();
    let mut i: usize = 0;
    while i < input.len()
        invariant
            i <= input@.len(),
            inu@.len() == i,
            forall|t: int| 0 <= t < i ==> inu@[t] == input@[t] as u16,
        decreases input@.len() - i,
    {
        inu.push(input[i] as u16);
        i = i + 1;
    }
    match dyn_swizzle_u16(&inu, indices) {
        Some(vu) => {
            let mut out: Vec<i16> = Vec::new();
            let mut t: usize = 0;
            while t < vu.len()
                invariant
                    inu@.len() == input@.len(),
                    vu@.len() == indices@.len(),
                    forall|s: int| 0 <= s < input@.len() ==> inu@[s] == input@[s] as u16,
                    input@.len() == 1 || forall|s: int|
                        0 <= s < indices@.len() ==> 0 <= #[trigger] indices@[s] < input@.len(),
                    forall|s: int|
                        0 <= s < vu@.len() ==> vu@[s] == (if inu@.len() == 1 {
                            inu@[0]
                        } else {
                            inu@[indices@[s] as int]
                        }),
                    t <= vu@.len(),
                    out@.len() == t,
                    forall|s: int|
                        0 <= s < t ==> out@[s] == (if input@.len() == 1 {
                            input@[0]
                        } else {
                            input@[indices@[s] as int]
                        }),
                decreases vu@.len() - t,
            {
                proof {
                    let ghost src: i16 = if input@.len() == 1 {
                        input@[0]
                    } else {
                        input@[indices@[t as int] as int]
                    };
                    assert((src as u16) as i16 == src) by (bit_vector);
                }
                out.push(vu[t] as i16);
                t = t + 1;
            }
            Some(out)
        },
        None => None,
    }
}

/// Arbitrary-index gather for 32-bit signed lanes, through the sign
/// conversion layer and the unsigned gather of the same width: lane `i` of
/// the result is lane `indices[i]` of the input whenever the lane-count
/// combination has a backing implementation; `None` is the capability
/// signal for combinations that have none. A one-lane input broadcasts its
/// lane whatever the index vector holds.
pub fn dyn_swizzle_i32(input: &Vec<i32>, indices: &Vec<i32>) -> (r: Option<Vec<i32>>)
    requires
        lane_count_ok(input@.len() as nat),
        lane_count_ok(indices@.len() as nat),
        input@.len() == 1 || forall|i: int|
            0 <= i < indices@.len() ==> 0 <= #[trigger] indices@[i] < input@.len(),
    ensures
        match r {
            Some(v) => {
                &&& swizzle_supported(4, input@.len() as nat, indices@.len() as nat)
                &&& v@.len() == indices@.len()
                &&& forall|i: int|
                    0 <= i < indices@.len() ==> v@[i] == (if input@.len() == 1 {
                        input@[0]
                    } else {
                        input@[indices@[i] as int]
                    })
            },
            None => !swizzle_supported(4, input@.len() as nat, indices@.len() as nat),
        },
{
    let mut inu: Vec<u32> = Vec::new();
    let mut i: usize = 0;
    while i < input.len()
        invariant
            i <= input@.len(),
            inu@.len() == i,
            forall|t: int| 0 <= t < i ==> inu@[t] == input@[t] as u32,
        decreases input@.len() - i,
    {
        inu.push(input[i] as u32);
        i = i + 1;
    }
    match dyn_swizzle_u32(&inu, indices) {
        Some(vu) => {
            let mut out: Vec<i32> = Vec::new();
            let mut t: usize = 0;
            while t < vu.len()
                invariant
                    inu@.len() == input@.len(),
                    vu@.len() == indices@.len(),
                    forall|s: int| 0 <= s < input@.len() ==> inu@[s] == input@[s] as u32,
                    input@.len() == 1 || forall|s: int|
                        0 <= s < indices@.len() ==> 0 <= #[trigger] indices@[s] < input@.len(),
                    forall|s: int|
                        0 <= s < vu@.len() ==> vu@[s] == (if inu@.len() == 1 {
                            inu@[0]
                        } else {
                            inu@[indices@[s] as int]
                        }),
                    t <= vu@.len(),
                    out@.len() == t,
                    forall|s: int|
                        0 <= s < t ==> out@[s] == (if input@.len() == 1 {
                            input@[0]
                        } else {
                            input@[indices@[s] as int]
                        }),
                decreases vu@.len() - t,
            {
                proof {
                    let ghost src: i32 = if input@.len() == 1 {
                        input@[0]
                    } else {
                        input@[indices@[t as int] as int]
                    };
                    assert((src as u32) as i32 == src) by (bit_vector);
                }
                out.push(vu[t] as i32);
                t = t + 1;
            }
            Some(out)
        },
        None => None,
    }
}

/// Arbitrary-index gather for 64-bit signed lanes, through the sign
/// conversion layer and the unsigned gather of the same width: lane `i` of
/// the result is lane `indices[i]` of the input whenever the lane-count
/// combination has a backing implementation; `None` is the capability
/// signal for combinations that have none. A one-lane input broadcasts its
/// lane whatever the index vector holds.
pub fn dyn_swizzle_i64(input: &Vec<i64>, indices: &Vec<i64>) -> (r: Option<Vec<i64>>)
    requires
        lane_count_ok(input@.len() as nat),
        lane_count_ok(indices@.len() as nat),
        input@.len() == 1 || forall|i: int|
            0 <= i < indices@.len() ==> 0 <= #[trigger] indices@[i] < input@.len(),
    ensures
        match r {
            Some(v) => {
                &&& swizzle_supported(8, input@.len() as nat, indices@.len() as nat)
                &&& v@.len() == indices@.len()
                &&& forall|i: int|
                    0 <= i < indices@.len() ==> v@[i] == (if input@.len() == 1 {
                        input@[0]
                    } else {
                        input@[indices@[i] as int]
                    })
            },
            None => !swizzle_supported(8, input@.len() as nat, indices@.len() as nat),
        },
{
    let mut inu: Vec<u64> = Vec::new();
    let mut i: usize = 0;
    while i < input.len()
        invariant
            i <= input@.len(),
            inu@.len() == i,
            forall|t: int| 0 <= t < i ==> inu@[t] == input@[t] as u64,
        decreases input@.len() - i,
    {
        inu.push(input[i] as u64);
        i = i + 1;
    }
    match dyn_swizzle_u64(&inu, indices) {
        Some(vu) => {
            let mut out: Vec<i64> = Vec::new();
            let mut t: usize = 0;
            while t < vu.len()
                invariant
                    inu@.len() == input@.len(),
                    vu@.len() == indices@.len(),
                    forall|s: int| 0 <= s < input@.len() ==> inu@[s] == input@[s] as u64,
                    input@.len() == 1 || forall|s: int|
                        0 <= s < indices@.len() ==> 0 <= #[trigger] indices@[s] < input@.len(),
                    forall|s: int|
                        0 <= s < vu@.len() ==> vu@[s] == (if inu@.len() == 1 {
                            inu@[0]
                        } else {
                            inu@[indices@[s] as int]
                        }),
                    t <= vu@.len(),
                    out@.len() == t,
                    forall|s: int|
                        0 <= s < t ==> out@[s] == (if input@.len() == 1 {
                            input@[0]
                        } else {
                            input@[indices@[s] as int]
                        }),
                decreases vu@.len() - t,
            {
                proof {
                    let ghost src: i64 = if input@.len() == 1 {
                        input@[0]
                    } else {
                        input@[indices@[t as int] as int]
                    };
                    assert((src as u64) as i64 == src) by (bit_vector);
                }
                out.push(vu[t] as i64);
                t = t + 1;
            }
            Some(out)
        },
        None => None,
    }
}

} // verus!
