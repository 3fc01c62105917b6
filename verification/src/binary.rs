//! The fast path for power-of-two radixes: mantissa bits align with input
//! digits, so a single checked accumulation and one shift decide the
//! rounding, except for an exactly-even halfway case with truncated digits,
//! which is handed back unresolved.

use vstd::prelude::*;

verus! {

use vstd::arithmetic::power2::{
    pow2, lemma2_to64, lemma2_to64_rest, lemma_pow2_pos, lemma_pow2_strictly_increases,
    lemma_pow2_adds,
};
use vstd::std_specs::bits::u64_leading_zeros;
use crate::limbs::{odd_part, lemma_u64_leading_zeros_bounds};
use crate::bignum::{split_radix, two_adic};
use crate::float::{ExtendedFloat80, FloatFormat, Number};
use crate::shared::{round, round_spec, RoundKind, INVALID_FP};
use crate::slow::{sig_digits, digit_of, char_to_digit};

/// The significand normalized so its top bit is set.
pub open spec fn normalized_mantissa(m: u64) -> nat {
    (m * pow2(u64_leading_zeros(m) as nat)) as nat
}

/// The biased binary exponent of the normalized significand: each digit of
/// the radix carries its bit width.
pub open spec fn binary_power2(fmt: FloatFormat, radix: u32, exponent: int, lz: nat) -> int {
    exponent * two_adic(radix as nat) + fmt.exponent_bias - lz
}

/// The result of the power-of-two fast path: either the rounded float, or,
/// for an exactly halfway significand that is even and was truncated, the
/// normalized significand with the exponent biased to mark it unresolved.
pub open spec fn binary_spec(fmt: FloatFormat, num: Number, lossy: bool, radix: u32) -> ExtendedFloat80 {
    if num.mantissa == 0 {
        ExtendedFloat80 { mant: 0, exp: 0 }
    } else {
        let lz = u64_leading_zeros(num.mantissa) as nat;
        let mant = normalized_mantissa(num.mantissa) as u64;
        let power2 = binary_power2(fmt, radix, num.exponent as int, lz);
        if power2 <= -63 {
            ExtendedFloat80 { mant: 0, exp: 0 }
        } else {
            let ms = fmt.mantissa_size as int;
            let mshift = 64 - ms - 1;
            let shift = if power2 + mshift <= 0 {
                1 - power2
            } else {
                mshift
            };
            let dropped = (mant as nat) % pow2(shift as nat);
            let half = pow2(shift as nat) / 2;
            let is_even = ((mant as nat) / pow2(shift as nat)) % 2 == 0;
            if !lossy && is_even && dropped == half && num.many_digits {
                ExtendedFloat80 { mant, exp: (power2 + INVALID_FP) as i32 }
            } else {
                round_spec(fmt, ExtendedFloat80 { mant, exp: power2 as i32 }, RoundKind::NearestTieEven(false))
            }
        }
    }
}

/// The power-of-two fast path.  A halfway significand that is even with
/// truncated digits cannot be resolved here unless `lossy`; its exponent
/// comes back biased by the sentinel so the caller re-dispatches.
pub fn binary(num: &Number, lossy: bool, radix: u32, fmt: &FloatFormat) -> (r: ExtendedFloat80)
    requires
        fmt.wf(),
        2 <= radix <= 36,
        odd_part(radix as nat) == 1,
        -0x0100_0000 <= num.exponent <= 0x0100_0000,
    ensures
        r == binary_spec(*fmt, *num, lossy, radix),
{
    if num.mantissa == 0 {
        return ExtendedFloat80 { mant: 0, exp: 0 };
    }
    let split = split_radix(radix);
    let log2r = split.1;
    proof {
        crate::bignum::lemma_split_two_adic_pub(radix);
        lemma_u64_leading_zeros_bounds(num.mantissa);
        lemma2_to64();
        lemma2_to64_rest();
    }
    let ctlz = num.mantissa.leading_zeros();
    proof {
        let lz = u64_leading_zeros(num.mantissa) as nat;
        lemma_pow2_adds((64 - lz) as nat, lz);
        assert(num.mantissa * pow2(lz) < pow2(64)) by (nonlinear_arith)
            requires
                num.mantissa < pow2((64 - lz) as nat),
                pow2(64) == pow2((64 - lz) as nat) * pow2(lz),
                pow2(lz) > 0,
        ;
        vstd::bits::lemma_u64_shl_is_mul(num.mantissa, ctlz as u64);
        // The executable split's shift is the two-adic valuation.
        if log2r != two_adic(radix as nat) {
            if log2r < two_adic(radix as nat) {
                lemma_pow2_strictly_increases(log2r as nat, two_adic(radix as nat));
            } else {
                lemma_pow2_strictly_increases(two_adic(radix as nat), log2r as nat);
            }
            assert(false);
        }
        assert(num.exponent * (log2r as int) <= 0x0500_0000 && num.exponent * (log2r as int)
            >= -0x0500_0000) by (nonlinear_arith)
            requires
                -0x0100_0000 <= num.exponent <= 0x0100_0000,
                0 <= log2r <= 5,
        ;
    }
    let mant = num.mantissa << (ctlz as u64);
    let power2_i64: i64 = num.exponent * (log2r as i64) + (fmt.exponent_bias as i64) - (
    ctlz as i64);
    let power2: i32 = power2_i64 as i32;
    if power2 <= -63 {
        return ExtendedFloat80 { mant: 0, exp: 0 };
    }
    let ms = fmt.mantissa_size as i32;
    let mshift: i32 = 64 - ms - 1;
    let shift: i32 = if power2 + mshift <= 0 {
        1 - power2
    } else {
        mshift
    };
    proof {
        lemma_pow2_pos(shift as nat);
        if shift < 63 {
            lemma_pow2_strictly_increases(shift as nat, 63);
        }
        vstd::bits::lemma_u64_shl_is_mul(1u64, shift as u64);
    }
    let pw: u64 = 1u64 << (shift as u64);
    let dropped = mant % pw;
    let half = pw / 2;
    let is_even = (mant / pw) % 2 == 0;
    if !lossy && is_even && dropped == half && num.many_digits {
        return ExtendedFloat80 { mant, exp: power2 + INVALID_FP };
    }
    round(ExtendedFloat80 { mant, exp: power2 }, fmt, RoundKind::NearestTieEven(false))
}

/// The checked accumulation of digits into a word: the packed value as far
/// as it fits, whether it overflowed, and whether every digit dropped after
/// the overflow was zero.
pub open spec fn accumulated(ds: Seq<u32>, radix: u32) -> (nat, bool, bool)
    decreases ds.len(),
{
    if ds.len() == 0 {
        (0, false, true)
    } else {
        let p = accumulated(ds.drop_last(), radix);
        let d = ds.last();
        if !p.1 {
            if p.0 * radix + d <= 0xffff_ffff_ffff_ffff {
                ((p.0 * radix + d) as nat, false, true)
            } else {
                (p.0, true, d == 0)
            }
        } else {
            (p.0, true, p.2 && d == 0)
        }
    }
}

/// The result of the slow power-of-two path: accumulate digits until the
/// word overflows, then round up exactly when a nonzero digit was dropped.
pub open spec fn slow_binary_spec(
    fmt: FloatFormat,
    ds: Seq<u32>,
    exponent: int,
    radix: u32,
) -> ExtendedFloat80 {
    let acc = accumulated(ds, radix);
    if acc.0 == 0 {
        ExtendedFloat80 { mant: 0, exp: 0 }
    } else {
        let m = acc.0 as u64;
        let lz = u64_leading_zeros(m) as nat;
        let mant = normalized_mantissa(m) as u64;
        let power2 = binary_power2(fmt, radix, exponent, lz);
        round_spec(
            fmt,
            ExtendedFloat80 { mant, exp: power2 as i32 },
            RoundKind::Decided(!acc.2),
        )
    }
}

/// The slow fallback for power-of-two radixes: parse digits with a checked
/// accumulator, and resolve the halfway case by whether any nonzero digit
/// was dropped.
pub fn slow_binary(
    bytes: &[u8],
    exponent: i64,
    decimal_point: u8,
    radix: u32,
    fmt: &FloatFormat,
) -> (r: ExtendedFloat80)
    requires
        fmt.wf(),
        2 <= radix <= 36,
        odd_part(radix as nat) == 1,
        -0x0100_0000 <= exponent <= 0x0100_0000,
    ensures
        r == slow_binary_spec(
            *fmt,
            sig_digits(bytes@, decimal_point, radix, false),
            exponent as int,
            radix,
        ),
{
    let ghost ds = sig_digits(bytes@, decimal_point, radix, false);
    let mut mantissa: u64 = 0;
    let mut overflow = false;
    let mut zero = true;
    let mut i: usize = 0;
    let mut seen_point = false;
    proof {
        assert(ds.take(0) =~= Seq::<u32>::empty());
        assert(accumulated(ds.take(0), radix) == (0nat, false, true));
        assert(bytes@.skip(0) =~= bytes@);
        assert(ds.skip(0) =~= ds);
        assert(0 <= 0 <= ds.len() && accumulated(ds.take(0), radix) == (
            mantissa as nat,
            overflow,
            zero,
        ) && ds.skip(0) == sig_digits(bytes@.skip(0), decimal_point, radix, seen_point));
    }
    while i < bytes.len()
        invariant
            2 <= radix <= 36,
            fmt.wf(),
            odd_part(radix as nat) == 1,
            -0x0100_0000 <= exponent <= 0x0100_0000,
            i <= bytes@.len(),
            ds == sig_digits(bytes@, decimal_point, radix, false),
            exists|n: int|
                0 <= n <= ds.len() && #[trigger] accumulated(ds.take(n), radix) == (
                    mantissa as nat,
                    overflow,
                    zero,
                ) && ds.skip(n) == sig_digits(bytes@.skip(i as int), decimal_point, radix, seen_point),
        decreases bytes@.len() - i,
    {
        let c = bytes[i];
        let ghost n = choose|n: int|
            0 <= n <= ds.len() && #[trigger] accumulated(ds.take(n), radix) == (
                mantissa as nat,
                overflow,
                zero,
            ) && ds.skip(n) == sig_digits(bytes@.skip(i as int), decimal_point, radix, seen_point);
        let ghost rest = bytes@.skip(i as int);
        proof {
            assert(rest[0] == bytes@[i as int]);
            assert(rest.skip(1) =~= bytes@.skip(i + 1));
        }
        match char_to_digit(c, radix) {
            Some(d) => {
                proof {
                    assert(ds.skip(n) == seq![d].add(
                        sig_digits(bytes@.skip(i + 1), decimal_point, radix, seen_point),
                    ));
                    assert(ds[n] == ds.skip(n)[0] == d);
                    assert(seq![d].add(
                        sig_digits(bytes@.skip(i + 1), decimal_point, radix, seen_point),
                    ).skip(1) =~= sig_digits(bytes@.skip(i + 1), decimal_point, radix, seen_point));
                    assert(ds.skip(n).skip(1) =~= ds.skip(n + 1));
                    assert(ds.take(n + 1).drop_last() =~= ds.take(n));
                    assert(ds.take(n + 1).last() == d);
                }
                if !overflow {
                    let next = mantissa.checked_mul(radix as u64);
                    let next2 = match next {
                        Some(v) => v.checked_add(d as u64),
                        None => None,
                    };
                    match next2 {
                        Some(v) => {
                            mantissa = v;
                        },
                        None => {
                            overflow = true;
                            zero = d == 0;
                        },
                    }
                } else {
                    zero = zero && d == 0;
                }
                proof {
                    assert(accumulated(ds.take(n + 1), radix) == (
                        mantissa as nat,
                        overflow,
                        zero,
                    ));
                    assert(0 <= n + 1 <= ds.len());
                    assert(ds.skip(n + 1) == sig_digits(
                        bytes@.skip(i + 1),
                        decimal_point,
                        radix,
                        seen_point,
                    ));
                }
            },
            None => {
                if c == decimal_point && !seen_point {
                    seen_point = true;
                    proof {
                        assert(ds.skip(n) == sig_digits(
                            bytes@.skip(i + 1),
                            decimal_point,
                            radix,
                            true,
                        ));
                    }
                } else {
                    proof {
                        assert(sig_digits(rest, decimal_point, radix, seen_point)
                            =~= Seq::<u32>::empty());
                        assert(n == ds.len());
                        assert(ds.take(n) =~= ds);
                    }
                    return finish_slow_binary(mantissa, overflow, zero, exponent, radix, fmt);
                }
            },
        }
        i = i + 1;
    }
    proof {
        let n = choose|n: int|
            0 <= n <= ds.len() && #[trigger] accumulated(ds.take(n), radix) == (
                mantissa as nat,
                overflow,
                zero,
            ) && ds.skip(n) == sig_digits(bytes@.skip(i as int), decimal_point, radix, seen_point);
        assert(bytes@.skip(i as int) =~= Seq::<u8>::empty());
        assert(sig_digits(Seq::<u8>::empty(), decimal_point, radix, seen_point)
            =~= Seq::<u32>::empty());
        assert(n == ds.len());
        assert(ds.take(n) =~= ds);
    }
    finish_slow_binary(mantissa, overflow, zero, exponent, radix, fmt)
}

/// Normalize the accumulated mantissa and round it by the precomputed
/// decision.
fn finish_slow_binary(
    mantissa: u64,
    overflow: bool,
    zero: bool,
    exponent: i64,
    radix: u32,
    fmt: &FloatFormat,
) -> (r: ExtendedFloat80)
    requires
        fmt.wf(),
        2 <= radix <= 36,
        odd_part(radix as nat) == 1,
        -0x0100_0000 <= exponent <= 0x0100_0000,
    ensures
        ({
            let m = mantissa as nat;
            r == (if m == 0 {
                ExtendedFloat80 { mant: 0, exp: 0 }
            } else {
                round_spec(
                    *fmt,
                    ExtendedFloat80 {
                        mant: normalized_mantissa(mantissa) as u64,
                        exp: binary_power2(
                            *fmt,
                            radix,
                            exponent as int,
                            u64_leading_zeros(mantissa) as nat,
                        ) as i32,
                    },
                    RoundKind::Decided(!zero),
                )
            })
        }),
{
    if mantissa == 0 {
        return ExtendedFloat80 { mant: 0, exp: 0 };
    }
    let split = split_radix(radix);
    let log2r = split.1;
    proof {
        crate::bignum::lemma_split_two_adic_pub(radix);
        lemma_u64_leading_zeros_bounds(mantissa);
        lemma2_to64();
        lemma2_to64_rest();
    }
    let ctlz = mantissa.leading_zeros();
    proof {
        let lz = u64_leading_zeros(mantissa) as nat;
        lemma_pow2_adds((64 - lz) as nat, lz);
        assert(mantissa * pow2(lz) < pow2(64)) by (nonlinear_arith)
            requires
                mantissa < pow2((64 - lz) as nat),
                pow2(64) == pow2((64 - lz) as nat) * pow2(lz),
                pow2(lz) > 0,
        ;
        vstd::bits::lemma_u64_shl_is_mul(mantissa, ctlz as u64);
        if log2r != two_adic(radix as nat) {
            if log2r < two_adic(radix as nat) {
                lemma_pow2_strictly_increases(log2r as nat, two_adic(radix as nat));
            } else {
                lemma_pow2_strictly_increases(two_adic(radix as nat), log2r as nat);
            }
            assert(false);
        }
        assert(exponent * (log2r as int) <= 0x0500_0000 && exponent * (log2r as int)
            >= -0x0500_0000) by (nonlinear_arith)
            requires
                -0x0100_0000 <= exponent <= 0x0100_0000,
                0 <= log2r <= 5,
        ;
    }
    let mant = mantissa << (ctlz as u64);
    let power2_i64: i64 = exponent * (log2r as i64) + (fmt.exponent_bias as i64) - (ctlz as i64);
    let power2: i32 = power2_i64 as i32;
    round(ExtendedFloat80 { mant, exp: power2 }, fmt, RoundKind::Decided(!zero))
}

} // verus!
