//! Sign conversion layer: bijective, width-preserving reinterpretation
//! between signed and unsigned element types of equal bit width.
//!
//! The mapping is a total bit-reinterpreting cast and needs no validation;
//! each implementation proves that the two directions invert each other.

use vstd::prelude::*;

verus! {

/// An unsigned element type paired with the signed type of the same width.
pub trait Unsigned: Sized {
    /// The signed type of the same bit width.
    type Signed;

    /// The value of `to_signed`, as a specification-level cast.
    spec fn to_signed_spec(self) -> Self::Signed;

    /// Reinterprets the bits of `self` as the signed type of the same width.
    fn to_signed(self) -> (r: Self::Signed)
        ensures
            r == self.to_signed_spec(),
    ;
}

/// A signed element type paired with the unsigned type of the same width.
pub trait Signed: Sized {
    /// The unsigned type of the same bit width.
    type Unsigned;

    /// The value of `to_unsigned`, as a specification-level cast.
    spec fn to_unsigned_spec(self) -> Self::Unsigned;

    /// Reinterprets the bits of `self` as the unsigned type of the same width.
    fn to_unsigned(self) -> (r: Self::Unsigned)
        ensures
            r == self.to_unsigned_spec(),
    ;
}

impl Unsigned for u8 {
    type Signed = i8;

    open spec fn to_signed_spec(self) -> i8 {
        self as i8
    }

    fn to_signed(self) -> (r: i8) {
        self as i8
    }

}

impl Signed for i8 {
    type Unsigned = u8;

    open spec fn to_unsigned_spec(self) -> u8 {
        self as u8
    }

    fn to_unsigned(self) -> (r: u8) {
        self as u8
    }

}

impl Unsigned for u16 {
    type Signed = i16;

    open spec fn to_signed_spec(self) -> i16 {
        self as i16
    }

    fn to_signed(self) -> (r: i16) {
        self as i16
    }

}

impl Signed for i16 {
    type Unsigned = u16;

    open spec fn to_unsigned_spec(self) -> u16 {
        self as u16
    }

    fn to_unsigned(self) -> (r: u16) {
        self as u16
    }

}

impl Unsigned for u32 {
    type Signed = i32;

    open spec fn to_signed_spec(self) -> i32 {
        self as i32
    }

    fn to_signed(self) -> (r: i32) {
        self as i32
    }

}

impl Signed for i32 {
    type Unsigned = u32;

    open spec fn to_unsigned_spec(self) -> u32 {
        self as u32
    }

    fn to_unsigned(self) -> (r: u32) {
        self as u32
    }

}

impl Unsigned for u64 {
    type Signed = i64;

    open spec fn to_signed_spec(self) -> i64 {
        self as i64
    }

    fn to_signed(self) -> (r: i64) {
        self as i64
    }

}

impl Signed for i64 {
    type Unsigned = u64;

    open spec fn to_unsigned_spec(self) -> u64 {
        self as u64
    }

    fn to_unsigned(self) -> (r: u64) {
        self as u64
    }

}

impl Unsigned for u128 {
    type Signed = i128;

    open spec fn to_signed_spec(self) -> i128 {
        self as i128
    }

    fn to_signed(self) -> (r: i128) {
        self as i128
    }

}

impl Signed for i128 {
    type Unsigned = u128;

    open spec fn to_unsigned_spec(self) -> u128 {
        self as u128
    }

    fn to_unsigned(self) -> (r: u128) {
        self as u128
    }

}

/// Round-trip law for the 8-bit pair: converting an unsigned value to
/// signed and back, or a signed value to unsigned and back, returns the
/// original value.
pub proof fn lemma_sign_round_trip_8(x: u8, s: i8)
    ensures
        x.to_signed_spec().to_unsigned_spec() == x,
        s.to_unsigned_spec().to_signed_spec() == s,
{
    assert((x as i8) as u8 == x) by (bit_vector);
    assert((s as u8) as i8 == s) by (bit_vector);
}

/// Round-trip law for the 16-bit pair: converting an unsigned value to
/// signed and back, or a signed value to unsigned and back, returns the
/// original value.
pub proof fn lemma_sign_round_trip_16(x: u16, s: i16)
    ensures
        x.to_signed_spec().to_unsigned_spec() == x,
        s.to_unsigned_spec().to_signed_spec() == s,
{
    assert((x as i16) as u16 == x) by (bit_vector);
    assert((s as u16) as i16 == s) by (bit_vector);
}

/// Round-trip law for the 32-bit pair: converting an unsigned value to
/// signed and back, or a signed value to unsigned and back, returns the
/// original value.
pub proof fn lemma_sign_round_trip_32(x: u32, s: i32)
    ensures
        x.to_signed_spec().to_unsigned_spec() == x,
        s.to_unsigned_spec().to_signed_spec() == s,
{
    assert((x as i32) as u32 == x) by (bit_vector);
    assert((s as u32) as i32 == s) by (bit_vector);
}

/// Round-trip law for the 64-bit pair: converting an unsigned value to
/// signed and back, or a signed value to unsigned and back, returns the
/// original value.
pub proof fn lemma_sign_round_trip_64(x: u64, s: i64)
    ensures
        x.to_signed_spec().to_unsigned_spec() == x,
        s.to_unsigned_spec().to_signed_spec() == s,
{
    assert((x as i64) as u64 == x) by (bit_vector);
    assert((s as u64) as i64 == s) by (bit_vector);
}

/// Round-trip law for the 128-bit pair: converting an unsigned value to
/// signed and back, or a signed value to unsigned and back, returns the
/// original value.
pub proof fn lemma_sign_round_trip_128(x: u128, s: i128)
    ensures
        x.to_signed_spec().to_unsigned_spec() == x,
        s.to_unsigned_spec().to_signed_spec() == s,
{
    assert((x as i128) as u128 == x) by (bit_vector);
    assert((s as u128) as i128 == s) by (bit_vector);
}


/// Lane-wise reinterpretation of an unsigned 8-bit vector as signed.
pub fn to_signed_lanes_u8(x: &Vec<u8>) -> (r: Vec<i8>)
    ensures
        r@.len() == x@.len(),
        forall|i: int| 0 <= i < x@.len() ==> r@[i] == x@[i] as i8,
{
    let mut r: Vec<i8> = Vec::new();
    let mut i: usize = 0;
    while i < x.len()
        invariant
            i <= x@.len(),
            r@.len() == i,
            forall|t: int| 0 <= t < i ==> r@[t] == x@[t] as i8,
        decreases x@.len() - i,
    {
        r.push(x[i] as i8);
        i = i + 1;
    }
    r
}

/// Lane-wise reinterpretation of a signed 8-bit vector as unsigned.
pub fn to_unsigned_lanes_i8(x: &Vec<i8>) -> (r: Vec<u8>)
    ensures
        r@.len() == x@.len(),
        forall|i: int| 0 <= i < x@.len() ==> r@[i] == x@[i] as u8,
{
    let mut r: Vec<u8> = Vec::new();
    let mut i: usize = 0;
    while i < x.len()
        invariant
            i <= x@.len(),
            r@.len() == i,
            forall|t: int| 0 <= t < i ==> r@[t] == x@[t] as u8,
        decreases x@.len() - i,
    {
        r.push(x[i] as u8);
        i = i + 1;
    }
    r
}

/// Lane-wise reinterpretation of an unsigned 16-bit vector as signed.
pub fn to_signed_lanes_u16(x: &Vec<u16>) -> (r: Vec<i16>)
    ensures
        r@.len() == x@.len(),
        forall|i: int| 0 <= i < x@.len() ==> r@[i] == x@[i] as i16,
{
    let mut r: Vec<i16> = Vec::new();
    let mut i: usize = 0;
    while i < x.len()
        invariant
            i <= x@.len(),
            r@.len() == i,
            forall|t: int| 0 <= t < i ==> r@[t] == x@[t] as i16,
        decreases x@.len() - i,
    {
        r.push(x[i] as i16);
        i = i + 1;
    }
    r
}

/// Lane-wise reinterpretation of a signed 16-bit vector as unsigned.
pub fn to_unsigned_lanes_i16(x: &Vec<i16>) -> (r: Vec<u16>)
    ensures
        r@.len() == x@.len(),
        forall|i: int| 0 <= i < x@.len() ==> r@[i] == x@[i] as u16,
{
    let mut r: Vec<u16> = Vec::new();
    let mut i: usize = 0;
    while i < x.len()
        invariant
            i <= x@.len(),
            r@.len() == i,
            forall|t: int| 0 <= t < i ==> r@[t] == x@[t] as u16,
        decreases x@.len() - i,
    {
        r.push(x[i] as u16);
        i = i + 1;
    }
    r
}

/// Lane-wise reinterpretation of an unsigned 32-bit vector as signed.
pub fn to_signed_lanes_u32(x: &Vec<u32>) -> (r: Vec<i32>)
    ensures
        r@.len() == x@.len(),
        forall|i: int| 0 <= i < x@.len() ==> r@[i] == x@[i] as i32,
{
    let mut r: Vec<i32> = Vec::new();
    let mut i: usize = 0;
    while i < x.len()
        invariant
            i <= x@.len(),
            r@.len() == i,
            forall|t: int| 0 <= t < i ==> r@[t] == x@[t] as i32,
        decreases x@.len() - i,
    {
        r.push(x[i] as i32);
        i = i + 1;
    }
    r
}

/// Lane-wise reinterpretation of a signed 32-bit vector as unsigned.
pub fn to_unsigned_lanes_i32(x: &Vec<i32>) -> (r: Vec<u32>)
    ensures
        r@.len() == x@.len(),
        forall|i: int| 0 <= i < x@.len() ==> r@[i] == x@[i] as u32,
{
    let mut r: Vec<u32> = Vec::new();
    let mut i: usize = 0;
    while i < x.len()
        invariant
            i <= x@.len(),
            r@.len() == i,
            forall|t: int| 0 <= t < i ==> r@[t] == x@[t] as u32,
        decreases x@.len() - i,
    {
        r.push(x[i] as u32);
        i = i + 1;
    }
    r
}

/// Lane-wise reinterpretation of an unsigned 64-bit vector as signed.
pub fn to_signed_lanes_u64(x: &Vec<u64>) -> (r: Vec<i64>)
    ensures
        r@.len() == x@.len(),
        forall|i: int| 0 <= i < x@.len() ==> r@[i] == x@[i] as i64,
{
    let mut r: Vec<i64> = Vec::new();
    let mut i: usize = 0;
    while i < x.len()
        invariant
            i <= x@.len(),
            r@.len() == i,
            forall|t: int| 0 <= t < i ==> r@[t] == x@[t] as i64,
        decreases x@.len() - i,
    {
        r.push(x[i] as i64);
        i = i + 1;
    }
    r
}

/// Lane-wise reinterpretation of a signed 64-bit vector as unsigned.
pub fn to_unsigned_lanes_i64(x: &Vec<i64>) -> (r: Vec<u64>)
    ensures
        r@.len() == x@.len(),
        forall|i: int| 0 <= i < x@.len() ==> r@[i] == x@[i] as u64,
{
    let mut r: Vec<u64> = Vec::new();
    let mut i: usize = 0;
    while i < x.len()
        invariant
            i <= x@.len(),
            r@.len() == i,
            forall|t: int| 0 <= t < i ==> r@[t] == x@[t] as u64,
        decreases x@.len() - i,
    {
        r.push(x[i] as u64);
        i = i + 1;
    }
    r
}

} // verus!
