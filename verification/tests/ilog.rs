use fath::intlog::{ilog_by_division, log2};
use fath::magic::ilog_mul_shift;
use fath::FastExactInt;

/// Reference integer logarithm by repeated division, wide enough for every
/// element width under test.
fn ref_ilog(mut x: u128, base: u128) -> u32 {
    assert!(x >= 1 && base >= 2);
    let mut r: u32 = 0;
    while x >= base {
        x /= base;
        r += 1;
    }
    r
}

#[test]
fn ilog_scenario_u64_base10() {
    assert_eq!(30872332346397u64.ilog_const_base(10), 13);
}

#[test]
fn ilog_scenario_u32_base2() {
    assert_eq!(49u32.ilog_const_base(2), 5);
}

#[test]
fn ilog_u8_exhaustive_all_bases() {
    for base in 2..=36u32 {
        for x in 1..=u8::MAX {
            let expect = ref_ilog(x as u128, base as u128) as u8;
            assert_eq!(x.ilog_const_base(base), expect, "x={x} base={base}");
            assert_eq!(x.ilog_const_base_unchecked(base), expect);
        }
    }
}

#[test]
fn ilog_u16_boundaries_all_bases() {
    for base in 2..=36u32 {
        let mut p: u32 = 1;
        loop {
            for c in [p.wrapping_sub(1), p, p + 1] {
                if c >= 1 && c <= u16::MAX as u32 {
                    let x = c as u16;
                    assert_eq!(
                        x.ilog_const_base(base),
                        ref_ilog(x as u128, base as u128) as u16,
                        "x={x} base={base}"
                    );
                }
            }
            match p.checked_mul(base) {
                Some(v) if v <= u16::MAX as u32 => p = v,
                _ => break,
            }
        }
        assert_eq!(
            u16::MAX.ilog_const_base(base),
            ref_ilog(u16::MAX as u128, base as u128) as u16
        );
    }
}

#[test]
fn ilog_u32_boundaries_all_bases() {
    for base in 2..=36u32 {
        let mut p: u64 = 1;
        loop {
            for c in [p - 1, p, p + 1] {
                if c >= 1 && c <= u32::MAX as u64 {
                    let x = c as u32;
                    assert_eq!(
                        x.ilog_const_base(base),
                        ref_ilog(x as u128, base as u128),
                        "x={x} base={base}"
                    );
                }
            }
            match p.checked_mul(base as u64) {
                Some(v) if v <= u32::MAX as u64 => p = v,
                _ => break,
            }
        }
        assert_eq!(
            u32::MAX.ilog_const_base(base),
            ref_ilog(u32::MAX as u128, base as u128)
        );
    }
}

#[test]
fn ilog_u64_boundaries_all_bases() {
    for base in 2..=36u32 {
        let mut p: u128 = 1;
        loop {
            for c in [p - 1, p, p + 1] {
                if c >= 1 && c <= u64::MAX as u128 {
                    let x = c as u64;
                    assert_eq!(
                        x.ilog_const_base(base),
                        ref_ilog(x as u128, base as u128) as u64,
                        "x={x} base={base}"
                    );
                }
            }
            p *= base as u128;
            if p > u64::MAX as u128 {
                break;
            }
        }
        assert_eq!(
            u64::MAX.ilog_const_base(base),
            ref_ilog(u64::MAX as u128, base as u128) as u64
        );
    }
}

#[test]
fn ilog_pseudorandom_sweep_u64() {
    // a cheap deterministic generator covering many bit lengths
    let mut state: u64 = 0x9E37_79B9_7F4A_7C15;
    for base in [2u32, 3, 5, 7, 10, 16, 36] {
        for i in 0..2000u64 {
            state = state
                .wrapping_mul(6364136223846793005)
                .wrapping_add(1442695040888963407);
            let x = (state >> (i % 60)).max(1);
            assert_eq!(
                x.ilog_const_base(base),
                ref_ilog(x as u128, base as u128) as u64,
                "x={x} base={base}"
            );
        }
    }
}

#[test]
fn ilog_division_reference_agrees() {
    for base in 2..=12u64 {
        for x in 1..=4096u64 {
            assert_eq!(
                ilog_by_division(base, x) as u64,
                x.ilog_const_base(base as u32)
            );
        }
    }
}

#[test]
fn log2_values() {
    assert_eq!(log2(1), 0);
    assert_eq!(log2(2), 1);
    assert_eq!(log2(49), 5);
    assert_eq!(log2(u32::MAX), 31);
}

#[test]
fn magic_pair_u64_base10() {
    // the derived fixed-point pair for 64-bit base-10 digit counts
    assert_eq!(ilog_mul_shift(10, 64), Some((86765988884422951, 58)));
}

#[test]
fn magic_pair_u32_base3() {
    assert_eq!(ilog_mul_shift(3, 32), Some((84681958, 27)));
}

#[test]
fn magic_pairs_validate_for_common_bases() {
    for bits in [8u32, 16, 32, 64] {
        let max_w: u64 = if bits == 64 { u64::MAX } else { (1u64 << bits) - 1 };
        for base in 3..=36u64 {
            if base > max_w {
                continue;
            }
            // the magic path only runs where the digit count is large;
            // there the derived pair must pass validation
            if ref_ilog(max_w as u128, base as u128) > 10 {
                assert!(
                    ilog_mul_shift(base, bits).is_some(),
                    "bits={bits} base={base}"
                );
            }
        }
    }
}

#[test]
fn exp_const_coeff_values() {
    assert_eq!(5u8.exp_const_coeff(3), 243);
    assert_eq!(0u16.exp_const_coeff(7), 1);
    assert_eq!(4u32.exp_const_coeff(10), 10000);
    assert_eq!(19u64.exp_const_coeff(10), 10_000_000_000_000_000_000);
    assert_eq!(63u64.exp_const_coeff(2), 1u64 << 63);
    // degenerate coefficients
    assert_eq!(0u32.exp_const_coeff(0), 1);
    assert_eq!(9u32.exp_const_coeff(0), 0);
    assert_eq!(31u32.exp_const_coeff(1), 1);
}
