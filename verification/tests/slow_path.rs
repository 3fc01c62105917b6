//! The slow path end to end on concrete literals: the parsed digit stream,
//! the scientific exponent, and the bit-exact rounding of the classic
//! boundary cases, including subnormals, the historic halfway input that
//! must not round up, and overflow to infinity.

use core::cmp::Ordering;
use lexical_parse_float::bignum::{Bigfloat, Bigint};
use lexical_parse_float::binary::{binary, slow_binary};
use lexical_parse_float::float::{b, bh, extended_to_float, ExtendedFloat80, FloatFormat, Number};
use lexical_parse_float::shared::{round, RoundKind};
use lexical_parse_float::slow::{
    char_to_digit, compare_bytes, integral_binary_factor, parse_mantissa, scientific_exponent,
    slow_radix,
};

fn num(mantissa: u64, exponent: i64) -> Number {
    Number { mantissa, exponent, many_digits: false }
}

fn run64(bytes: &str, n: Number, fp: ExtendedFloat80) -> (u64, i32) {
    let fmt = FloatFormat::binary64();
    let r = slow_radix(bytes.as_bytes(), &n, fp, b'.', 10, &fmt);
    (r.mant, r.exp)
}

const BIT63: u64 = 1 << 63;

#[test]
fn zero_parses_to_plus_zero() {
    assert_eq!(run64("0", num(0, 0), ExtendedFloat80 { mant: BIT63, exp: 0 }), (0, 0));
}

#[test]
fn one_parses_exactly() {
    assert_eq!(run64("1", num(1, 0), ExtendedFloat80 { mant: BIT63, exp: 0 }), (0, 1023));
}

#[test]
fn small_normal_rounds_correctly() {
    // 1e-308 -> 0x000730D67819E8D2
    let fp = ExtendedFloat80 { mant: 0xe61acf033d1a4000, exp: -12 };
    assert_eq!(run64("1", num(1, -308), fp), (0x730d67819e8d2, 0));
}

#[test]
fn smallest_subnormal() {
    // 5e-324 -> 0x0000000000000001
    let fp = ExtendedFloat80 { mant: BIT63, exp: -62 };
    assert_eq!(run64("5", num(5, -324), fp), (1, 0));
}

#[test]
fn smallest_normal() {
    // 2.2250738585072014e-308 -> 0x0010000000000000
    let fp = ExtendedFloat80 { mant: BIT63, exp: -10 };
    assert_eq!(run64("2.2250738585072014", num(22250738585072014, -324), fp), (0, 1));
}

#[test]
fn largest_finite() {
    // 1.7976931348623157e308 -> 0x7FEFFFFFFFFFFFFF (positive residual path)
    let fp = ExtendedFloat80 { mant: BIT63, exp: 0 };
    assert_eq!(run64("1.7976931348623157", num(17976931348623157, 292), fp), (
        0xfffffffffffff,
        2046,
    ));
}

#[test]
fn near_halfway_below_must_not_round_up() {
    // 2.2250738585072011e-308 is the largest value below the halfway point
    // at the normal boundary, the historic input that buggy parsers rounded
    // up to the smallest normal: it must stay 0x000FFFFFFFFFFFFF.
    let fp = ExtendedFloat80 { mant: 0xfffffffffffff000, exp: -11 };
    assert_eq!(run64("2.2250738585072011", num(22250738585072011, -324), fp), (
        0xfffffffffffff,
        0,
    ));
}

#[test]
fn near_halfway_above_rounds_up() {
    // 2.2250738585072012e-308 lies just above that halfway point, so the
    // nearest float is the smallest normal; the carry into the hidden bit
    // packs to 0x0010000000000000.
    let fmt = FloatFormat::binary64();
    let fp = ExtendedFloat80 { mant: 0xfffffffffffff000, exp: -11 };
    let r = slow_radix(b"2.2250738585072012", &num(22250738585072012, -324), fp, b'.', 10, &fmt);
    assert_eq!((r.mant, r.exp), (1 << 52, 1));
    assert_eq!(extended_to_float(r, &fmt), 0x0010000000000000);
}

#[test]
fn ties_to_even_in_binary32() {
    // "16777217" as binary32 rounds the trailing 1 down to 1.6777216e7.
    let fmt = FloatFormat::binary32();
    let fp = ExtendedFloat80 { mant: BIT63, exp: 0 };
    let r = slow_radix(b"16777217", &num(16777217, 0), fp, b'.', 10, &fmt);
    assert_eq!((r.mant, r.exp), (0, 151));
}

#[test]
fn overflow_to_infinity() {
    // 1e309 -> +inf
    let fp = ExtendedFloat80 { mant: BIT63, exp: 0 };
    assert_eq!(run64("1", num(1, 309), fp), (0, 0x7ff));
}

#[test]
fn parse_mantissa_truncates_and_rounds_up() {
    let r = parse_mantissa(b"12345", b'.', 10, 900);
    assert_eq!(r.1, 5);
    assert_eq!(r.0.data.as_slice(), &[12345]);
    // Budget of 3 digits: "123" plus one for the nonzero remainder "45".
    let r = parse_mantissa(b"12345", b'.', 10, 3);
    assert_eq!(r.1, 3);
    assert_eq!(r.0.data.as_slice(), &[124]);
    // A zero remainder does not round up.
    let r = parse_mantissa(b"12300", b'.', 10, 3);
    assert_eq!(r.0.data.as_slice(), &[123]);
    // The decimal point is skipped once; a second one stops the scan.
    let r = parse_mantissa(b"1.2.3", b'.', 10, 900);
    assert_eq!(r.1, 2);
    assert_eq!(r.0.data.as_slice(), &[12]);
}

#[test]
fn scientific_exponent_places_the_point() {
    assert_eq!(scientific_exponent(&num(123, -2), 10), 0);
    assert_eq!(scientific_exponent(&num(1, -308), 10), -308);
    assert_eq!(scientific_exponent(&num(0, 4), 10), 4);
    assert_eq!(scientific_exponent(&num(u64::MAX, 0), 10), 19);
}

#[test]
fn digits_and_factors() {
    assert_eq!(char_to_digit(b'7', 10), Some(7));
    assert_eq!(char_to_digit(b'a', 16), Some(10));
    assert_eq!(char_to_digit(b'a', 10), None);
    assert_eq!(char_to_digit(b'Z', 36), Some(35));
    assert_eq!(integral_binary_factor(10), 4);
    assert_eq!(integral_binary_factor(36), 6);
    assert_eq!(integral_binary_factor(16), 0);
}

#[test]
fn candidate_roundtrip_through_bits() {
    // Round a candidate down to b, pack it, and recover b and b+h.
    let fmt = FloatFormat::binary64();
    let fp = ExtendedFloat80 { mant: 0xe61acf033d1a4000, exp: -12 };
    let down = round(fp, &fmt, RoundKind::Down);
    let bits = extended_to_float(down, &fmt);
    assert_eq!(bits, 0x000730d67819e8d2);
    let lo = b(bits, &fmt);
    assert_eq!((lo.mant, lo.exp), (0x730d67819e8d2, -1074));
    let half = bh(bits, &fmt);
    assert_eq!((half.mant, half.exp), (2 * 0x730d67819e8d2 + 1, -1075));
}

#[test]
fn binary_fast_path() {
    // 1 in radix 16 is exactly 1.0.
    let fmt = FloatFormat::binary64();
    let r = binary(&num(1, 0), false, 16, &fmt);
    assert_eq!((r.mant, r.exp), (0, 1023));
    // 0xff with exponent 0 is 255.0.
    let r = slow_binary(b"ff", 0, b'.', 16, &fmt);
    assert_eq!((r.mant, r.exp), (0xfe00000000000, 1030));
    // An even halfway significand with truncated digits is unresolved.
    let n = Number { mantissa: (1 << 53) + 1, exponent: 0, many_digits: true };
    let r = binary(&n, false, 2, &fmt);
    assert!(r.exp < -0x4000);
    // With `lossy` the same input resolves by ties-to-even.
    let r = binary(&n, true, 2, &fmt);
    assert_eq!((r.mant, r.exp), (0, 1076));
}

#[test]
fn bigint_digits_follow_the_stream() {
    let r = parse_mantissa(b"18446744073709551616", b'.', 10, 900);
    // 2^64 needs two limbs.
    assert_eq!(r.0.data.as_slice(), &[0, 1]);
    assert_eq!(r.1, 20);
    let mut big = Bigint::from_u64(1);
    big.pow(10, 20);
    assert_eq!(big.data.as_slice(), &[7766279631452241920, 5]);
}

#[test]
fn compare_bytes_generates_theoretical_digits() {
    // The ratio (3 * 2^60) / 2^60 denotes the digit stream "3...".
    let den = Bigfloat::from_u64(1 << 60);
    let num = |v: u64| Bigfloat::from_u64(v);
    assert_eq!(compare_bytes(b"3", num(3 << 60), &den, b'.', 10), Ordering::Equal);
    assert_eq!(compare_bytes(b"29", num(3 << 60), &den, b'.', 10), Ordering::Less);
    assert_eq!(compare_bytes(b"31", num(3 << 60), &den, b'.', 10), Ordering::Greater);
    // Leading zeros and the decimal point are stepped over.
    assert_eq!(compare_bytes(b"0.3", num(3 << 60), &den, b'.', 10), Ordering::Equal);
    assert_eq!(compare_bytes(b"3.000", num(3 << 60), &den, b'.', 10), Ordering::Equal);
    // A nonzero digit after the numerator is spent makes the input larger;
    // a spent input with a live numerator makes it smaller.
    assert_eq!(compare_bytes(b"300001", num(3 << 60), &den, b'.', 10), Ordering::Greater);
    assert_eq!(compare_bytes(b"3", num((3 << 60) + 1), &den, b'.', 10), Ordering::Less);
    // 10/3 in base 10 denotes 3.333...; the input's leading zeros are
    // skipped, so "0.32" compares as the digit stream 3, 2.
    let third_den = Bigfloat::from_u64(3 << 60);
    assert_eq!(compare_bytes(b"0.32", num(10 << 60), &third_den, b'.', 10), Ordering::Less);
    assert_eq!(compare_bytes(b"0.34", num(10 << 60), &third_den, b'.', 10), Ordering::Greater);
    assert_eq!(compare_bytes(b"3.32", num(10 << 60), &third_den, b'.', 10), Ordering::Less);
}

#[test]
fn bigfloat_tracks_value_and_exponent() {
    let mut f = Bigfloat::from_u32(1);
    f.pow(10, 3);
    // 10^3 = 125 * 2^3.
    assert_eq!(f.data.as_slice(), &[125]);
    assert_eq!(f.exp, 3);
    f.shl(4);
    assert_eq!(f.data.as_slice(), &[125 << 4]);
    assert_eq!(f.exp, 3);
    assert_eq!(f.leading_zeros(), (125u64 << 4).leading_zeros());
    let g = Bigfloat::from_float(ExtendedFloat80 { mant: 7, exp: -9 });
    assert_eq!(g.data.as_slice(), &[7]);
    assert_eq!(g.exp, -9);
}
