//! The arithmetic primitives on concrete values: construction, addition,
//! subtraction, multiplication, division, shifts, comparison, the top-bits
//! extraction, and the per-radix tables.

use lexical_parse_float::bigint::{
    compare, scalar_add, scalar_div, scalar_mul, scalar_sub, small_add, small_div, small_mul,
    small_sub, shl, large_add, bit_length, leading_zeros, StackVec,
};
use lexical_parse_float::bignum::{split_radix, Bigint};
use lexical_parse_float::large::large_mul;
use lexical_parse_float::bigint::large_sub;
use lexical_parse_float::limits::{
    f32_exponent_limit, f32_mantissa_limit, f32_max_digits, f64_exponent_limit,
    f64_mantissa_limit, f64_max_digits, u32_power_limit, u64_power_limit,
};
use lexical_parse_float::quorem::large_quorem;

#[test]
fn scalar_ops() {
    assert_eq!(scalar_add(u64::MAX, 1), (0, true));
    assert_eq!(scalar_add(5, 7), (12, false));
    assert_eq!(scalar_sub(0, 1), (u64::MAX, true));
    assert_eq!(scalar_mul(u64::MAX, u64::MAX, u64::MAX), (0, u64::MAX));
    assert_eq!(scalar_div(5, 4, 1), ((1u64 << 62) + 1, 1));
}

#[test]
fn small_ops_roundtrip() {
    let mut v = StackVec::<8>::from_u64(u64::MAX);
    small_add(&mut v, 1);
    assert_eq!(v.len(), 2);
    small_sub(&mut v, 1);
    assert_eq!(v.len(), 1);
    small_mul(&mut v, 10);
    let rem = small_div(&mut v, 10);
    assert_eq!(rem, 0);
    assert_eq!(v.len(), 1);
}

#[test]
fn mul_and_quorem() {
    // (2^64 + 5) * (2^64 + 7) = 2^128 + 12*2^64 + 35
    let mut x = StackVec::<8>::try_from(&[5, 1]).unwrap();
    large_mul(&mut x, &[7, 1]);
    assert_eq!(x.as_slice(), &[35, 12, 1]);
    // Divide (3*d + 9) by d where d has a shifted top limb.
    let d = [0u64, 1u64 << 60];
    let mut n = StackVec::<8>::try_from(&[9, 3u64 << 60]).unwrap();
    let q = large_quorem(&mut n, &d);
    assert_eq!(q, 3);
    assert_eq!(n.as_slice(), &[9]);
}

#[test]
fn large_add_sub_compare() {
    let mut x = StackVec::<8>::try_from(&[u64::MAX, u64::MAX]).unwrap();
    large_add(&mut x, &[1]);
    assert_eq!(x.as_slice(), &[0, 0, 1]);
    large_sub(&mut x, &[1]);
    assert_eq!(x.as_slice(), &[u64::MAX, u64::MAX]);
    let y = StackVec::<8>::try_from(&[0, 1]).unwrap();
    assert_eq!(compare(x.as_slice(), y.as_slice()), core::cmp::Ordering::Greater);
}

#[test]
fn shifts_and_bit_length() {
    let mut v = StackVec::<8>::from_u64(1);
    shl(&mut v, 100);
    assert_eq!(v.as_slice(), &[0, 1 << 36]);
    assert_eq!(bit_length(v.as_slice()), 101);
    assert_eq!(leading_zeros(v.as_slice()), 27);
}

#[test]
fn hi64_extraction() {
    let v = StackVec::<8>::from_u64(1);
    assert_eq!(v.hi64(), (1 << 63, false));
    let w = StackVec::<8>::try_from(&[1, 1]).unwrap();
    assert_eq!(w.hi64(), (1 << 63, true));
    let z = StackVec::<8>::try_from(&[0, 0b101]).unwrap();
    assert_eq!(z.hi64(), (0b101u64 << 61, false));
}

#[test]
fn bigint_pow() {
    // 3 * 10^19 spills into a second limb.
    let mut b = Bigint::from_u64(3);
    b.pow(10, 19);
    let expected = 30_000_000_000_000_000_000u128;
    assert_eq!(b.data.as_slice()[0], (expected & 0xffff_ffff_ffff_ffff) as u64);
    assert_eq!(b.data.as_slice()[1], (expected >> 64) as u64);
    assert_eq!(b.bit_length(), 65);
}

#[test]
fn radix_tables() {
    assert_eq!(split_radix(10), (5, 1));
    assert_eq!(split_radix(16), (0, 4));
    assert_eq!(u32_power_limit(10), 9);
    assert_eq!(u64_power_limit(10), 19);
    assert_eq!(f32_exponent_limit(10), (-10, 10));
    assert_eq!(f64_exponent_limit(10), (-22, 22));
    assert_eq!(f32_mantissa_limit(10), 7);
    assert_eq!(f64_mantissa_limit(10), 15);
    assert_eq!(f32_max_digits(10), Some(114));
    assert_eq!(f64_max_digits(10), Some(769));
    assert_eq!(f64_max_digits(7), None);
    assert_eq!(f64_max_digits(16), None);
}
