use fath::lanes::{
    exp_const_coeff_lanes_u64, ilog_const_base_lanes_u32, ilog_const_base_lanes_u64,
};

#[test]
fn ilog_lanes_u32_values() {
    let x: Vec<u32> = vec![1, 2, 3, 9, 10, 99, 100, 1000, u32::MAX];
    assert_eq!(
        ilog_const_base_lanes_u32(&x, 10),
        vec![0, 0, 0, 0, 1, 1, 2, 3, 9]
    );
    assert_eq!(
        ilog_const_base_lanes_u32(&x, 2),
        x.iter().map(|&v| v.ilog2()).collect::<Vec<u32>>()
    );
}

#[test]
fn ilog_lanes_u64_values() {
    let x: Vec<u64> = vec![1, 30872332346397, u64::MAX, 999_999_999_999];
    assert_eq!(ilog_const_base_lanes_u64(&x, 10), vec![0, 13, 19, 11]);
    let y: Vec<u64> = (1..=64).map(|i| (1u64 << (i - 1)).wrapping_add(i)).collect();
    assert_eq!(
        ilog_const_base_lanes_u64(&y, 3),
        y.iter().map(|&v| v.ilog(3) as u64).collect::<Vec<u64>>()
    );
}

#[test]
fn exp_lanes_table_lookup() {
    // a one-lane exponent vector goes through the gathered power table
    assert_eq!(exp_const_coeff_lanes_u64(&vec![13], 10), vec![10u64.pow(13)]);
    let x: Vec<u64> = vec![0, 1, 2, 3, 4, 5, 6, 7];
    assert_eq!(
        exp_const_coeff_lanes_u64(&x, 3),
        x.iter().map(|&e| 3u64.pow(e as u32)).collect::<Vec<u64>>()
    );
    assert_eq!(
        exp_const_coeff_lanes_u64(&vec![0, 19], 10),
        vec![1, 10_000_000_000_000_000_000]
    );
}

#[test]
fn exp_lanes_degenerate_coefficients() {
    assert_eq!(exp_const_coeff_lanes_u64(&vec![0, 3], 0), vec![1, 0]);
    assert_eq!(exp_const_coeff_lanes_u64(&vec![0, 900], 1), vec![1, 1]);
    assert_eq!(exp_const_coeff_lanes_u64(&vec![5, 63], 2), vec![32, 1u64 << 63]);
}
