use fath::conv::{
    to_signed_lanes_u16, to_signed_lanes_u32, to_signed_lanes_u64, to_signed_lanes_u8,
    to_unsigned_lanes_i16, to_unsigned_lanes_i32, to_unsigned_lanes_i64, to_unsigned_lanes_i8,
};
use fath::{Signed, Unsigned};

#[test]
fn round_trip_u8_exhaustive() {
    for x in 0..=u8::MAX {
        assert_eq!(x.to_signed().to_unsigned(), x);
    }
    for s in i8::MIN..=i8::MAX {
        assert_eq!(s.to_unsigned().to_signed(), s);
    }
}

#[test]
fn round_trip_boundaries_all_widths() {
    for x in [0u16, 1, 0x7FFF, 0x8000, u16::MAX] {
        assert_eq!(x.to_signed().to_unsigned(), x);
    }
    for x in [0u32, 1, 0x7FFF_FFFF, 0x8000_0000, u32::MAX] {
        assert_eq!(x.to_signed().to_unsigned(), x);
    }
    for x in [0u64, 1, u64::MAX / 2, u64::MAX / 2 + 1, u64::MAX] {
        assert_eq!(x.to_signed().to_unsigned(), x);
    }
    for x in [0u128, 1, u128::MAX / 2, u128::MAX / 2 + 1, u128::MAX] {
        assert_eq!(x.to_signed().to_unsigned(), x);
    }
    for s in [i64::MIN, -1, 0, 1, i64::MAX] {
        assert_eq!(s.to_unsigned().to_signed(), s);
    }
    for s in [i128::MIN, -1, 0, 1, i128::MAX] {
        assert_eq!(s.to_unsigned().to_signed(), s);
    }
}

#[test]
fn reinterpretation_values() {
    assert_eq!(0xFFu8.to_signed(), -1i8);
    assert_eq!((-1i16).to_unsigned(), 0xFFFFu16);
    assert_eq!(0x8000_0000u32.to_signed(), i32::MIN);
    assert_eq!(i64::MIN.to_unsigned(), 0x8000_0000_0000_0000u64);
}

#[test]
fn lane_wise_conversions() {
    assert_eq!(
        to_signed_lanes_u8(&vec![0, 1, 127, 128, 255]),
        vec![0, 1, 127, -128, -1]
    );
    assert_eq!(
        to_unsigned_lanes_i8(&vec![0, -1, -128, 127]),
        vec![0, 255, 128, 127]
    );
    assert_eq!(
        to_signed_lanes_u16(&vec![0xFFFF, 0x8000]),
        vec![-1, i16::MIN]
    );
    assert_eq!(to_unsigned_lanes_i16(&vec![-2]), vec![0xFFFE]);
    assert_eq!(
        to_signed_lanes_u32(&vec![u32::MAX, 5]),
        vec![-1, 5]
    );
    assert_eq!(
        to_unsigned_lanes_i32(&vec![i32::MIN]),
        vec![0x8000_0000]
    );
    assert_eq!(
        to_signed_lanes_u64(&vec![u64::MAX]),
        vec![-1i64]
    );
    assert_eq!(
        to_unsigned_lanes_i64(&vec![-1, i64::MAX]),
        vec![u64::MAX, i64::MAX as u64]
    );
}

#[test]
fn lane_round_trip() {
    let xs: Vec<u32> = vec![0, 1, 0x7FFF_FFFF, 0x8000_0000, u32::MAX];
    assert_eq!(to_unsigned_lanes_i32(&to_signed_lanes_u32(&xs)), xs);
}
