use fath::swizzle::{
    create_indices_additive, create_resize_indices, dyn_swizzle_i16, dyn_swizzle_i32,
    dyn_swizzle_i64, dyn_swizzle_i8, dyn_swizzle_u16, dyn_swizzle_u32, dyn_swizzle_u64,
    dyn_swizzle_u8,
};

const LANE_COUNTS: [usize; 7] = [1, 2, 4, 8, 16, 32, 64];

/// Mirror of the support table: a one-lane input broadcasts, a one-lane
/// output reads directly, and everything else must fit 16 bytes.
fn supported(w: usize, n: usize, m: usize) -> bool {
    n == 1 || m == 1 || (w * n <= 16 && w * m <= 16)
}

#[test]
fn gather_four_lane_scenario() {
    let input: Vec<u32> = vec![10, 20, 30, 40];
    let indices: Vec<i32> = vec![3, 0, 1, 2];
    assert_eq!(dyn_swizzle_u32(&input, &indices), Some(vec![40, 10, 20, 30]));
}

#[test]
fn gather_u8_all_combinations() {
    for &n in &LANE_COUNTS {
        for &m in &LANE_COUNTS {
            let input: Vec<u8> = (0..n).map(|i| (i as u8) * 3 + 1).collect();
            let indices: Vec<i8> = (0..m).map(|i| ((i * 7 + 3) % n) as i8).collect();
            let r = dyn_swizzle_u8(&input, &indices);
            if supported(1, n, m) {
                let expect: Vec<u8> = (0..m)
                    .map(|i| {
                        if n == 1 {
                            input[0]
                        } else {
                            input[indices[i] as usize]
                        }
                    })
                    .collect();
                assert_eq!(r, Some(expect), "n={n} m={m}");
            } else {
                assert_eq!(r, None, "n={n} m={m}");
                // the capability signal is consistent across repeated calls
                assert_eq!(dyn_swizzle_u8(&input, &indices), None);
            }
        }
    }
}

#[test]
fn gather_u16_all_combinations() {
    for &n in &LANE_COUNTS {
        for &m in &LANE_COUNTS {
            let input: Vec<u16> = (0..n).map(|i| 0x0101u16 * (i as u16 + 1)).collect();
            let indices: Vec<i16> = (0..m).map(|i| ((i * 5 + 1) % n) as i16).collect();
            let r = dyn_swizzle_u16(&input, &indices);
            if supported(2, n, m) {
                let expect: Vec<u16> = (0..m)
                    .map(|i| {
                        if n == 1 {
                            input[0]
                        } else {
                            input[indices[i] as usize]
                        }
                    })
                    .collect();
                assert_eq!(r, Some(expect), "n={n} m={m}");
            } else {
                assert_eq!(r, None, "n={n} m={m}");
                assert_eq!(dyn_swizzle_u16(&input, &indices), None);
            }
        }
    }
}

#[test]
fn gather_u32_all_combinations() {
    for &n in &LANE_COUNTS {
        for &m in &LANE_COUNTS {
            let input: Vec<u32> = (0..n).map(|i| 0xDEAD_0000u32 + i as u32).collect();
            let indices: Vec<i32> = (0..m).map(|i| ((i * 3 + 2) % n) as i32).collect();
            let r = dyn_swizzle_u32(&input, &indices);
            if supported(4, n, m) {
                let expect: Vec<u32> = (0..m)
                    .map(|i| {
                        if n == 1 {
                            input[0]
                        } else {
                            input[indices[i] as usize]
                        }
                    })
                    .collect();
                assert_eq!(r, Some(expect), "n={n} m={m}");
            } else {
                assert_eq!(r, None, "n={n} m={m}");
                assert_eq!(dyn_swizzle_u32(&input, &indices), None);
            }
        }
    }
}

#[test]
fn gather_u64_all_combinations() {
    for &n in &LANE_COUNTS {
        for &m in &LANE_COUNTS {
            let input: Vec<u64> = (0..n)
                .map(|i| 0x0123_4567_89AB_CDEFu64.wrapping_add(i as u64))
                .collect();
            let indices: Vec<i64> = (0..m).map(|i| ((i + 1) % n) as i64).collect();
            let r = dyn_swizzle_u64(&input, &indices);
            if supported(8, n, m) {
                let expect: Vec<u64> = (0..m)
                    .map(|i| {
                        if n == 1 {
                            input[0]
                        } else {
                            input[indices[i] as usize]
                        }
                    })
                    .collect();
                assert_eq!(r, Some(expect), "n={n} m={m}");
            } else {
                assert_eq!(r, None, "n={n} m={m}");
                assert_eq!(dyn_swizzle_u64(&input, &indices), None);
            }
        }
    }
}

#[test]
fn gather_signed_lanes() {
    let input: Vec<i32> = vec![-1, -200, 300, i32::MIN];
    let indices: Vec<i32> = vec![3, 2, 1, 0];
    assert_eq!(
        dyn_swizzle_i32(&input, &indices),
        Some(vec![i32::MIN, 300, -200, -1])
    );
    let input8: Vec<i8> = vec![-128, 127];
    assert_eq!(
        dyn_swizzle_i8(&input8, &vec![1i8, 0]),
        Some(vec![127, -128])
    );
    let input16: Vec<i16> = vec![-32768, -1, 0, 32767];
    assert_eq!(
        dyn_swizzle_i16(&input16, &vec![2i16, 0, 3, 1]),
        Some(vec![0, -32768, 32767, -1])
    );
    let input64: Vec<i64> = vec![i64::MIN, i64::MAX];
    assert_eq!(
        dyn_swizzle_i64(&input64, &vec![1i64, 0]),
        Some(vec![i64::MAX, i64::MIN])
    );
}

#[test]
fn gather_one_lane_input_broadcasts() {
    // the degenerate case ignores the index contents entirely
    let input: Vec<u16> = vec![7];
    let indices: Vec<i16> = vec![300, -5, 0, 12];
    assert_eq!(dyn_swizzle_u16(&input, &indices), Some(vec![7, 7, 7, 7]));
}

#[test]
fn gather_one_lane_output() {
    let input: Vec<u64> = (0..64).map(|i| i * i).collect();
    let indices: Vec<i64> = vec![63];
    assert_eq!(dyn_swizzle_u64(&input, &indices), Some(vec![63 * 63]));
}

#[test]
fn resize_indices_values() {
    assert_eq!(create_resize_indices(4, 8), vec![0, 1, 2, 3, 0, 1, 2, 3]);
    assert_eq!(create_resize_indices(8, 3), vec![0, 1, 2]);
    assert_eq!(create_resize_indices(1, 4), vec![0, 0, 0, 0]);
}

#[test]
fn indices_additive_values() {
    let (idx, add) = create_indices_additive(8, 16, 4);
    assert_eq!(idx, vec![0, 0, 0, 0, 4, 4, 4, 4, 0, 0, 0, 0, 4, 4, 4, 4]);
    assert_eq!(add, vec![0, 1, 2, 3, 0, 1, 2, 3, 0, 1, 2, 3, 0, 1, 2, 3]);
    let (idx2, add2) = create_indices_additive(4, 8, 2);
    assert_eq!(idx2, vec![0, 0, 2, 2, 0, 0, 2, 2]);
    assert_eq!(add2, vec![0, 1, 0, 1, 0, 1, 0, 1]);
}
