//! The digit-comparison slow path: parse all significant digits into a big
//! integer and resolve the rounding of a candidate float exactly, either by
//! scaling the digits up (nonnegative residual exponent) or by comparing
//! them against the halfway point (negative residual exponent).

use vstd::prelude::*;

verus! {

use vstd::arithmetic::power2::{
    pow2, lemma2_to64, lemma2_to64_rest, lemma_pow2_adds, lemma_pow2_pos,
    lemma_pow2_strictly_increases, lemma_pow2,
};
use vstd::arithmetic::power::{lemma_pow_adds, lemma_pow_multiplies, lemma_pow0, lemma_pow1};
use vstd::arithmetic::div_mod::{lemma_fundamental_div_mod, lemma_div_denominator};
use crate::limbs::{
    pow_nat, lemma_pow_nat, nat_bit_length, odd_part, lemma_limbs_value_lower,
    lemma_limbs_value_bound,
};
use crate::bigint::{small_mul, small_add, compare};
use crate::bignum::{Bigint, Bigfloat, BIGINT_LIMBS, BIGFLOAT_LIMBS, limb_pow, lemma_pow_base_increases};
use crate::float::{ExtendedFloat80, FloatFormat, Number, pack_spec, b_mant_spec, b_exp_spec, extended_to_float, bh};
use crate::shared::{round, round_spec, RoundKind};
use crate::limits::{u64_power_limit, f32_max_digits, f64_max_digits, f32_max_digits_spec, f64_max_digits_spec};

/// The digit a byte denotes in the radix, if any: `0-9`, then `a-z` or
/// `A-Z` from ten upward.
pub open spec fn digit_of(c: u8, radix: u32) -> Option<u32> {
    let v: int = if 0x30 <= c <= 0x39 {
        c - 0x30
    } else if 0x41 <= c <= 0x5a {
        c - 0x41 + 10
    } else if 0x61 <= c <= 0x7a {
        c - 0x61 + 10
    } else {
        99
    };
    if v < radix {
        Some(v as u32)
    } else {
        None
    }
}

/// The significand digits at the head of the byte stream: digits up to the
/// first byte that is neither a digit nor the first decimal point.
pub open spec fn sig_digits(s: Seq<u8>, point: u8, radix: u32, seen_point: bool) -> Seq<u32>
    decreases s.len(),
{
    if s.len() == 0 {
        Seq::empty()
    } else {
        match digit_of(s[0], radix) {
            Some(d) => seq![d].add(sig_digits(s.skip(1), point, radix, seen_point)),
            None => if s[0] == point && !seen_point {
                sig_digits(s.skip(1), point, radix, true)
            } else {
                Seq::empty()
            },
        }
    }
}

/// The integer a digit sequence denotes, most significant digit first.
pub open spec fn digits_value(ds: Seq<u32>, radix: u32) -> nat
    decreases ds.len(),
{
    if ds.len() == 0 {
        0
    } else {
        (digits_value(ds.drop_last(), radix) * radix + ds.last()) as nat
    }
}

/// Whether any digit of the sequence is nonzero.
pub open spec fn has_nonzero(ds: Seq<u32>) -> bool
    decreases ds.len(),
{
    ds.len() > 0 && (ds[0] != 0 || has_nonzero(ds.skip(1)))
}

/// The count of digits consumed by `parse_mantissa`, and the value of the
/// mantissa it builds: the first `max_digits` significand digits, plus one
/// when a nonzero digit was left behind.
pub open spec fn parsed_count(ds: Seq<u32>, max_digits: usize) -> int {
    if ds.len() <= max_digits {
        ds.len() as int
    } else {
        max_digits as int
    }
}

/// The value `parse_mantissa` returns for the digit stream.
pub open spec fn parsed_value(ds: Seq<u32>, radix: u32, max_digits: usize) -> nat {
    let n = parsed_count(ds, max_digits);
    (digits_value(ds.take(n), radix) + (if n < ds.len() && has_nonzero(ds.skip(n)) {
        1nat
    } else {
        0nat
    })) as nat
}

/// The digit value of a byte, exactly as `digit_of` describes it.
pub fn char_to_digit(c: u8, radix: u32) -> (r: Option<u32>)
    ensures
        r == digit_of(c, radix),
{
    let v: u32 = if c >= 0x30 && c <= 0x39 {
        (c - 0x30) as u32
    } else if c >= 0x41 && c <= 0x5a {
        (c - 0x41) as u32 + 10
    } else if c >= 0x61 && c <= 0x7a {
        (c - 0x61) as u32 + 10
    } else {
        99
    };
    if v < radix {
        Some(v)
    } else {
        None
    }
}

/// One more digit of a prefix of the stream.
proof fn lemma_digits_value_take_succ(ds: Seq<u32>, i: int, radix: u32)
    requires
        0 <= i < ds.len(),
    ensures
        digits_value(ds.take(i + 1), radix) == digits_value(ds.take(i), radix) * radix + ds[i],
{
    assert(ds.take(i + 1).drop_last() =~= ds.take(i));
    assert(ds.take(i + 1).last() == ds[i]);
}

/// A digit sequence denotes less than the radix power of its length.
proof fn lemma_digits_value_bound(ds: Seq<u32>, radix: u32)
    requires
        2 <= radix,
        forall|j: int| 0 <= j < ds.len() ==> ds[j] < radix,
    ensures
        digits_value(ds, radix) < pow_nat(radix as nat, ds.len()),
    decreases ds.len(),
{
    lemma_pow_nat(radix as nat, ds.len());
    if ds.len() == 0 {
        lemma_pow0(radix as int);
    } else {
        lemma_digits_value_bound(ds.drop_last(), radix);
        lemma_pow_nat(radix as nat, (ds.len() - 1) as nat);
        lemma_pow1(radix as int);
        lemma_pow_adds(radix as int, (ds.len() - 1) as nat, 1);
        let p = pow_nat(radix as nat, (ds.len() - 1) as nat) as int;
        let dv = digits_value(ds.drop_last(), radix) as int;
        assert(dv * radix + ds.last() < p * radix) by (nonlinear_arith)
            requires
                dv < p,
                0 <= ds.last() < radix,
                radix >= 2,
        ;
    }
}

/// Every radix power up to the big integer's digit budget fits its capacity:
/// the radix is below `2^6` and the capacity holds 6000 bits.
proof fn lemma_radix_pow_fits(radix: u32, n: nat)
    requires
        2 <= radix <= 36,
        n <= 990,
    ensures
        pow_nat(radix as nat, n) < pow2((64 * BIGINT_LIMBS) as nat),
{
    lemma_pow_nat(radix as nat, n);
    lemma_pow_nat(64, n);
    lemma_pow_base_increases(radix as nat, 64, n);
    lemma_pow_multiplies(2, 6, n);
    lemma_pow2(6);
    lemma2_to64();
    lemma_pow2((6 * n) as nat);
    if 6 * n < 64 * BIGINT_LIMBS {
        lemma_pow2_strictly_increases((6 * n) as nat, (64 * BIGINT_LIMBS) as nat);
    }
}

/// Append pending digits to the scaled mantissa: multiply by the radix power
/// of their count and add their packed value.
fn add_temporary(result: &mut Bigint, radix: u32, counter: usize, value: u64)
    requires
        old(result).wf(),
        2 <= radix <= 36,
        counter <= 63,
        pow_nat(radix as nat, counter as nat) <= 0xffff_ffff_ffff_ffff,
        counter == 0 ==> value == 0,
        old(result).value() * pow_nat(radix as nat, counter as nat) + value < pow2(
            (64 * BIGINT_LIMBS) as nat,
        ),
    ensures
        final(result).wf(),
        final(result).value() == old(result).value() * pow_nat(radix as nat, counter as nat)
            + value,
{
    if counter != 0 {
        proof {
            lemma_pow_nat(radix as nat, counter as nat);
            lemma_pow1(radix as int);
            lemma_pow_adds(radix as int, 1, (counter - 1) as nat);
            lemma_pow_nat(radix as nat, (counter - 1) as nat);
            vstd::arithmetic::power::lemma_pow_positive(radix as int, (counter - 1) as nat);
        }
        let pw = limb_pow(radix as u64, counter as u32);
        small_mul(&mut result.data, pw);
        small_add(&mut result.data, value);
    } else {
        proof {
            lemma_pow0(radix as int);
            assert(pow_nat(radix as nat, 0) == 1);
            assert(old(result).value() * 1 == old(result).value());
        }
    }
}

/// Parse up to `max_digits` significand digits from the byte stream into a
/// big integer, skipping one decimal point and stopping at any other
/// non-digit.  When digits remain past the budget, the result is bumped by
/// one if any of them is nonzero, so the value always errs upward for the
/// round-up test.  Returns the mantissa and the count of digits it holds.
pub fn parse_mantissa(bytes: &[u8], decimal_point: u8, radix: u32, max_digits: usize) -> (r: (
    Bigint,
    usize,
))
    requires
        2 <= radix <= 36,
        1 <= max_digits <= 900,
    ensures
        ({
            let ds = sig_digits(bytes@, decimal_point, radix, false);
            &&& r.0.wf()
            &&& r.1 == parsed_count(ds, max_digits)
            &&& r.0.value() == parsed_value(ds, radix, max_digits)
        }),
{
    let ghost ds = sig_digits(bytes@, decimal_point, radix, false);
    proof {
        lemma_sig_digits_all_digits(bytes@, decimal_point, radix, false);
        assert(bytes@.skip(0) =~= bytes@);
    }
    let step_u32 = u64_power_limit(radix);
    let step = step_u32 as usize;
    let max_native = limb_pow(radix as u64, step_u32);
    let mut result = Bigint::new();
    let mut i: usize = 0;
    let mut seen_point = false;
    let mut counter: usize = 0;
    let mut count: usize = 0;
    let mut value: u64 = 0;
    proof {
        lemma_pow0(radix as int);
        assert(ds.take(0) =~= Seq::<u32>::empty());
        assert(0nat * pow_nat(radix as nat, 0) == 0);
    }
    while i < bytes.len()
        invariant
            2 <= radix <= 36,
            1 <= max_digits <= 900,
            1 <= step <= 63,
            max_native == pow_nat(radix as nat, step as nat),
            pow_nat(radix as nat, step as nat) <= 0xffff_ffff_ffff_ffff,
            i <= bytes@.len(),
            counter < step,
            count < max_digits,
            count <= ds.len(),
            result.wf(),
            value < pow_nat(radix as nat, counter as nat),
            result.value() * pow_nat(radix as nat, counter as nat) + value == digits_value(
                ds.take(count as int),
                radix,
            ),
            ds == sig_digits(bytes@, decimal_point, radix, false),
            ds.skip(count as int) == sig_digits(bytes@.skip(i as int), decimal_point, radix, seen_point),
            forall|j: int| 0 <= j < ds.len() ==> ds[j] < radix,
        decreases bytes@.len() - i,
    {
        let c = bytes[i];
        let ghost rest = bytes@.skip(i as int);
        proof {
            assert(rest[0] == bytes@[i as int]);
            assert(rest.skip(1) =~= bytes@.skip(i + 1));
        }
        match char_to_digit(c, radix) {
            Some(d) => {
                proof {
                    // The head of the remaining stream is this digit.
                    assert(ds.skip(count as int) == seq![d].add(
                        sig_digits(bytes@.skip(i + 1), decimal_point, radix, seen_point),
                    ));
                    assert(ds.skip(count as int).len() > 0);
                    assert(ds[count as int] == ds.skip(count as int)[0] == d);
                    assert(ds.skip(count as int).skip(1) =~= ds.skip(count + 1));
                    assert(seq![d].add(
                        sig_digits(bytes@.skip(i + 1), decimal_point, radix, seen_point),
                    ).skip(1) =~= sig_digits(bytes@.skip(i + 1), decimal_point, radix, seen_point));
                    assert(ds.skip(count + 1) == sig_digits(
                        bytes@.skip(i + 1),
                        decimal_point,
                        radix,
                        seen_point,
                    ));
                    // Appending the digit keeps the packed value in range.
                    lemma_pow_nat(radix as nat, counter as nat);
                    lemma_pow_nat(radix as nat, (counter + 1) as nat);
                    lemma_pow_nat(radix as nat, step as nat);
                    lemma_pow1(radix as int);
                    lemma_pow_adds(radix as int, counter as nat, 1);
                    vstd::arithmetic::power::lemma_pow_increases(
                        radix as nat,
                        (counter + 1) as nat,
                        step as nat,
                    );
                    let pc = pow_nat(radix as nat, counter as nat) as int;
                    let pc1 = pow_nat(radix as nat, (counter + 1) as nat) as int;
                    assert(value * radix + d < pc1) by (nonlinear_arith)
                        requires
                            value < pc,
                            0 <= d < radix,
                            pc1 == pc * radix,
                            radix >= 2,
                    ;
                    lemma_digits_value_take_succ(ds, count as int, radix);
                    let rv = result.value() as int;
                    assert(rv * pc1 + (value * radix + d) == digits_value(ds.take(count + 1), radix))
                        by (nonlinear_arith)
                        requires
                            rv * pc + value == digits_value(ds.take(count as int), radix),
                            digits_value(ds.take(count + 1), radix) == digits_value(
                                ds.take(count as int),
                                radix,
                            ) * radix + d,
                            pc1 == pc * radix,
                    ;
                }
                value = value * (radix as u64) + (d as u64);
                counter = counter + 1;
                count = count + 1;
                if counter == step {
                    proof {
                        lemma_flush_fits(ds, radix, count as int, max_digits);
                    }
                    add_temporary(&mut result, radix, counter, value);
                    counter = 0;
                    value = 0;
                    proof {
                        lemma_pow0(radix as int);
                        lemma_pow_nat(radix as nat, 0);
                        assert(pow_nat(radix as nat, 0) == 1);
                        assert(result.value() * 1 == result.value());
                    }
                }
                if count == max_digits {
                    proof {
                        lemma_flush_fits(ds, radix, count as int, max_digits);
                        lemma_pow_nat(radix as nat, counter as nat);
                        lemma_pow_nat(radix as nat, step as nat);
                        vstd::arithmetic::power::lemma_pow_increases(
                            radix as nat,
                            counter as nat,
                            step as nat,
                        );
                    }
                    add_temporary(&mut result, radix, counter, value);
                    // The budget is exhausted: scan the remaining digits and
                    // round up once if any is nonzero.
                    let ghost tail = ds.skip(count as int);
                    let mut j = i + 1;
                    let mut sp = seen_point;
                    while j < bytes.len()
                        invariant
                            2 <= radix <= 36,
                            j <= bytes@.len(),
                            result.wf(),
                            result.value() == digits_value(ds.take(count as int), radix),
                            count == max_digits <= 900,
                            count <= ds.len(),
                            ds == sig_digits(bytes@, decimal_point, radix, false),
                            forall|j2: int| 0 <= j2 < ds.len() ==> ds[j2] < radix,
                            has_nonzero(tail) == has_nonzero(
                                sig_digits(bytes@.skip(j as int), decimal_point, radix, sp),
                            ),
                            tail == ds.skip(count as int),
                        decreases bytes@.len() - j,
                    {
                        let c2 = bytes[j];
                        let ghost rest2 = bytes@.skip(j as int);
                        proof {
                            assert(rest2[0] == bytes@[j as int]);
                            assert(rest2.skip(1) =~= bytes@.skip(j + 1));
                        }
                        match char_to_digit(c2, radix) {
                            Some(d2) => {
                                proof {
                                    assert(sig_digits(rest2, decimal_point, radix, sp)
                                        == seq![d2].add(
                                        sig_digits(bytes@.skip(j + 1), decimal_point, radix, sp),
                                    ));
                                    assert(sig_digits(rest2, decimal_point, radix, sp).skip(1)
                                        =~= sig_digits(
                                        bytes@.skip(j + 1),
                                        decimal_point,
                                        radix,
                                        sp,
                                    ));
                                }
                                if d2 != 0 {
                                    proof {
                                        lemma_flush_fits(ds, radix, count as int, max_digits);
                                        lemma_pow0(radix as int);
                                        lemma_pow_nat(radix as nat, 0);
                                        let cur = sig_digits(rest2, decimal_point, radix, sp);
                                        assert(cur[0] == d2);
                                        assert(has_nonzero(cur));
                                        assert(has_nonzero(tail));
                                        assert(tail.len() > 0);
                                        assert(count < ds.len());
                                    }
                                    small_add(&mut result.data, 1);
                                    return (result, count);
                                }
                                proof {
                                    let cur = sig_digits(rest2, decimal_point, radix, sp);
                                    assert(cur[0] == d2);
                                    assert(has_nonzero(cur) == has_nonzero(cur.skip(1)));
                                }
                            },
                            None => {
                                if c2 == decimal_point && !sp {
                                    sp = true;
                                } else {
                                    proof {
                                        assert(!has_nonzero(
                                            sig_digits(rest2, decimal_point, radix, sp),
                                        ));
                                    }
                                    return (result, count);
                                }
                            },
                        }
                        j = j + 1;
                    }
                    proof {
                        assert(bytes@.skip(j as int) =~= bytes@.skip(bytes@.len() as int));
                        assert(bytes@.skip(bytes@.len() as int) =~= Seq::<u8>::empty());
                        assert(!has_nonzero(
                            sig_digits(Seq::<u8>::empty(), decimal_point, radix, sp),
                        ));
                    }
                    return (result, count);
                }
            },
            None => {
                if c == decimal_point && !seen_point {
                    seen_point = true;
                } else {
                    proof {
                        assert(sig_digits(rest, decimal_point, radix, seen_point)
                            =~= Seq::<u32>::empty());
                        assert(ds.skip(count as int).len() == 0);
                        assert(count == ds.len());
                        lemma_flush_fits(ds, radix, count as int, max_digits);
                        assert(ds.take(count as int) =~= ds);
                        lemma_pow0(radix as int);
                        lemma_pow_nat(radix as nat, 0);
                        lemma_pow_nat(radix as nat, counter as nat);
                        lemma_pow_nat(radix as nat, step as nat);
                        vstd::arithmetic::power::lemma_pow_increases(
                            radix as nat,
                            counter as nat,
                            step as nat,
                        );
                    }
                    add_temporary(&mut result, radix, counter, value);
                    return (result, count);
                }
            },
        }
        i = i + 1;
    }
    proof {
        assert(bytes@.skip(i as int) =~= Seq::<u8>::empty());
        assert(sig_digits(Seq::<u8>::empty(), decimal_point, radix, seen_point)
            =~= Seq::<u32>::empty());
        assert(count == ds.len());
        lemma_flush_fits(ds, radix, count as int, max_digits);
        assert(ds.take(count as int) =~= ds);
        lemma_pow0(radix as int);
        lemma_pow_nat(radix as nat, 0);
        lemma_pow_nat(radix as nat, counter as nat);
        lemma_pow_nat(radix as nat, step as nat);
        vstd::arithmetic::power::lemma_pow_increases(radix as nat, counter as nat, step as nat);
    }
    add_temporary(&mut result, radix, counter, value);
    (result, count)
}

/// The packed prefix value, bumped by at most one, stays within the big
/// integer's capacity.
proof fn lemma_flush_fits(ds: Seq<u32>, radix: u32, count: int, max_digits: usize)
    requires
        2 <= radix <= 36,
        0 <= count <= ds.len(),
        count <= max_digits <= 900,
        forall|j: int| 0 <= j < ds.len() ==> ds[j] < radix,
    ensures
        digits_value(ds.take(count), radix) + 1 < pow2((64 * BIGINT_LIMBS) as nat),
{
    lemma_digits_value_bound(ds.take(count), radix);
    lemma_pow_nat(radix as nat, count as nat);
    lemma_pow_nat(radix as nat, 901);
    vstd::arithmetic::power::lemma_pow_increases(radix as nat, count as nat, 901);
    lemma_radix_pow_fits(radix, 901);
    lemma_pow_nat(radix as nat, (count + 1) as nat);
    lemma_pow1(radix as int);
    lemma_pow_adds(radix as int, count as nat, 1);
    let pc = pow_nat(radix as nat, count as nat) as int;
    assert(pc + 1 <= pc * radix) by (nonlinear_arith)
        requires
            pc >= 1,
            radix >= 2,
    ;
    lemma_pow_nat(radix as nat, 900);
    vstd::arithmetic::power::lemma_pow_increases(radix as nat, (count + 1) as nat, 901);
}

/// Every digit the stream yields is below the radix.
proof fn lemma_sig_digits_all_digits(s: Seq<u8>, point: u8, radix: u32, seen_point: bool)
    ensures
        forall|j: int|
            0 <= j < sig_digits(s, point, radix, seen_point).len() ==> #[trigger] sig_digits(
                s,
                point,
                radix,
                seen_point,
            )[j] < radix,
    decreases s.len(),
{
    let ds = sig_digits(s, point, radix, seen_point);
    if s.len() > 0 {
        lemma_sig_digits_all_digits(s.skip(1), point, radix, seen_point);
        lemma_sig_digits_all_digits(s.skip(1), point, radix, true);
        if digit_of(s[0], radix) is Some {
            let tail = sig_digits(s.skip(1), point, radix, seen_point);
            assert(ds == seq![digit_of(s[0], radix)->Some_0].add(tail));
            assert forall|j: int| 0 <= j < ds.len() implies ds[j] < radix by {
                if j == 0 {
                    assert(ds[0] == digit_of(s[0], radix)->Some_0);
                } else {
                    assert(ds[j] == tail[j - 1]);
                }
            }
        } else if s[0] == point && !seen_point {
            assert(ds == sig_digits(s.skip(1), point, radix, true));
        } else {
            assert(ds =~= Seq::<u32>::empty());
        }
    }
}

/// The number of digits of a value written in the radix; zero has one digit.
pub open spec fn digit_count(radix: u32, m: nat) -> nat
    decreases m,
    via digit_count_decreases
{
    if radix < 2 || m < radix {
        1
    } else {
        1 + digit_count(radix, m / (radix as nat))
    }
}

#[via_fn]
proof fn digit_count_decreases(radix: u32, m: nat) {
    if !(radix < 2 || m < radix) {
        vstd::arithmetic::div_mod::lemma_div_decreases(m as int, radix as int);
    }
}

/// A value below a radix power has no more digits than the power's exponent,
/// plus one.
proof fn lemma_digit_count_bound(radix: u32, m: nat, k: nat)
    requires
        2 <= radix,
        m < pow_nat(radix as nat, k),
    ensures
        digit_count(radix, m) <= k + 1,
    decreases k,
{
    lemma_pow_nat(radix as nat, k);
    if m >= radix {
        if k == 0 {
            lemma_pow0(radix as int);
            assert(false);
        }
        lemma_pow_nat(radix as nat, (k - 1) as nat);
        lemma_pow1(radix as int);
        lemma_pow_adds(radix as int, (k - 1) as nat, 1);
        let ri = radix as int;
        let mi = m as int;
        let q = m / (radix as nat);
        vstd::arithmetic::div_mod::lemma_fundamental_div_mod(mi, ri);
        vstd::arithmetic::div_mod::lemma_mod_division_less_than_divisor(mi, ri);
        let rem = mi % ri;
        assert(q == mi / ri);
        let pk1 = pow_nat(radix as nat, (k - 1) as nat) as int;
        assert(q < pk1) by (nonlinear_arith)
            requires
                mi == ri * q + rem,
                rem >= 0,
                mi < pk1 * ri,
                ri >= 2,
                q >= 0,
        ;
        lemma_digit_count_bound(radix, q, (k - 1) as nat);
    }
}

/// Every value has at least one digit.
proof fn lemma_digit_count_ge_one(radix: u32, m: nat)
    ensures
        digit_count(radix, m) >= 1,
{
}

/// Dividing by the radix removes one digit.
proof fn lemma_digit_count_step(radix: u32, m: nat)
    requires
        2 <= radix,
        m >= radix,
    ensures
        digit_count(radix, m) == 1 + digit_count(radix, m / (radix as nat)),
{
}

/// Dividing by the squared radix removes two digits.
proof fn lemma_digit_count_step2(radix: u32, m: nat)
    requires
        2 <= radix,
        m >= radix * radix,
    ensures
        digit_count(radix, m) == 2 + digit_count(radix, m / ((radix * radix) as nat)),
{
    let ri = radix as int;
    let mi = m as int;
    vstd::arithmetic::div_mod::lemma_fundamental_div_mod(mi, ri);
    vstd::arithmetic::div_mod::lemma_mod_division_less_than_divisor(mi, ri);
    vstd::arithmetic::div_mod::lemma_div_pos_is_pos(mi, ri);
    let rem = mi % ri;
    let q = m / (radix as nat);
    assert(q == mi / ri);
    assert(q >= ri) by (nonlinear_arith)
        requires
            mi == ri * q + rem,
            0 <= rem < ri,
            mi >= ri * ri,
            ri >= 2,
            q >= 0,
    ;
    assert(mi >= ri) by (nonlinear_arith)
        requires
            mi >= ri * ri,
            ri >= 2,
    ;
    lemma_digit_count_step(radix, m);
    lemma_digit_count_step(radix, q);
    vstd::arithmetic::div_mod::lemma_div_denominator(mi, ri, ri);
    assert(m / ((radix * radix) as nat) == q / (radix as nat));
}

/// Dividing by the fourth power removes four digits.
proof fn lemma_digit_count_step4(radix: u32, m: nat)
    requires
        2 <= radix,
        m >= (radix * radix) * (radix * radix),
    ensures
        digit_count(radix, m) == 4 + digit_count(
            radix,
            m / (((radix * radix) * (radix * radix)) as nat),
        ),
{
    let r2 = (radix * radix) as nat;
    let r2i = r2 as int;
    let mi = m as int;
    let q2 = m / r2;
    assert(r2i >= 4 && mi >= r2i * r2i) by (nonlinear_arith)
        requires
            mi >= (radix as int * radix as int) * (radix as int * radix as int),
            radix >= 2,
            r2i == radix as int * radix as int,
    ;
    vstd::arithmetic::div_mod::lemma_fundamental_div_mod(mi, r2i);
    vstd::arithmetic::div_mod::lemma_mod_division_less_than_divisor(mi, r2i);
    vstd::arithmetic::div_mod::lemma_div_pos_is_pos(mi, r2i);
    let rem2 = mi % r2i;
    assert(q2 == mi / r2i);
    assert(q2 >= r2i) by (nonlinear_arith)
        requires
            mi == r2i * q2 + rem2,
            0 <= rem2 < r2i,
            mi >= r2i * r2i,
            r2i >= 4,
            q2 >= 0,
    ;
    lemma_digit_count_step2(radix, m);
    lemma_digit_count_step2(radix, q2);
    vstd::arithmetic::div_mod::lemma_div_denominator(mi, r2i, r2i);
    assert(q2 / r2 == (q2 as int) / r2i);
    assert(r2i * r2i == ((radix * radix) * (radix * radix)) as int);
    assert(m / (((radix * radix) * (radix * radix)) as nat) == mi / (r2i * r2i));
    assert(q2 / r2 == m / (((radix * radix) * (radix * radix)) as nat));
}

/// The scientific exponent of a parsed number: the exponent that puts the
/// radix point just after the most significant digit of the significand.
pub fn scientific_exponent(num: &Number, radix: u32) -> (r: i32)
    requires
        2 <= radix <= 36,
        -0x4000_0000 <= num.exponent <= 0x4000_0000,
    ensures
        r == num.exponent + digit_count(radix, num.mantissa as nat) - 1,
{
    let ghost goal: int = num.exponent + digit_count(radix, num.mantissa as nat);
    proof {
        lemma2_to64();
        lemma_pow_nat(radix as nat, 64);
        lemma_pow_nat(2, 64);
        lemma_pow_base_increases(2, radix as nat, 64);
        lemma_pow2(64);
        lemma_digit_count_bound(radix, num.mantissa as nat, 64);
        lemma_digit_count_ge_one(radix, num.mantissa as nat);
    }
    let radix64 = radix as u64;
    proof {
        assert(radix64 * radix64 <= 1296) by (nonlinear_arith)
            requires
                radix64 <= 36,
        ;
    }
    let radix2 = radix64 * radix64;
    proof {
        assert(radix2 * radix2 <= 1296 * 1296 && radix2 * radix2 >= 16) by (nonlinear_arith)
            requires
                2 <= radix64 <= 36,
                radix2 == radix64 * radix64,
        ;
    }
    let radix4 = radix2 * radix2;
    let mut mantissa = num.mantissa;
    let mut exponent: i64 = num.exponent;
    while mantissa >= radix4
        invariant
            2 <= radix <= 36,
            radix64 == radix,
            radix2 == radix64 * radix64,
            radix4 == radix2 * radix2,
            exponent + digit_count(radix, mantissa as nat) == goal,
            num.exponent <= exponent <= goal - 1,
            goal <= num.exponent + 65,
            -0x4000_0000 <= num.exponent <= 0x4000_0000,
        decreases mantissa,
    {
        proof {
            assert(4 <= radix2 <= 1296 && 16 <= radix4) by (nonlinear_arith)
                requires
                    2 <= radix64 <= 36,
                    radix2 == radix64 * radix64,
                    radix4 == radix2 * radix2,
            ;
            lemma_digit_count_step4(radix, mantissa as nat);
            lemma_digit_count_ge_one(radix, (mantissa as nat) / (radix4 as nat));
            vstd::arithmetic::div_mod::lemma_div_decreases(mantissa as int, radix4 as int);
        }
        mantissa = mantissa / radix4;
        exponent = exponent + 4;
    }
    while mantissa >= radix2
        invariant
            2 <= radix <= 36,
            radix64 == radix,
            radix2 == radix64 * radix64,
            exponent + digit_count(radix, mantissa as nat) == goal,
            num.exponent <= exponent <= goal - 1,
            goal <= num.exponent + 65,
            -0x4000_0000 <= num.exponent <= 0x4000_0000,
        decreases mantissa,
    {
        proof {
            assert(4 <= radix2 <= 1296) by (nonlinear_arith)
                requires
                    2 <= radix64 <= 36,
                    radix2 == radix64 * radix64,
            ;
            lemma_digit_count_step2(radix, mantissa as nat);
            lemma_digit_count_ge_one(radix, (mantissa as nat) / (radix2 as nat));
            vstd::arithmetic::div_mod::lemma_div_decreases(mantissa as int, radix2 as int);
        }
        mantissa = mantissa / radix2;
        exponent = exponent + 2;
    }
    while mantissa >= radix64
        invariant
            2 <= radix <= 36,
            radix64 == radix,
            exponent + digit_count(radix, mantissa as nat) == goal,
            num.exponent <= exponent <= goal - 1,
            goal <= num.exponent + 65,
            -0x4000_0000 <= num.exponent <= 0x4000_0000,
        decreases mantissa,
    {
        proof {
            lemma_digit_count_step(radix, mantissa as nat);
            lemma_digit_count_ge_one(radix, (mantissa as nat) / (radix64 as nat));
            vstd::arithmetic::div_mod::lemma_div_decreases(mantissa as int, radix64 as int);
        }
        mantissa = mantissa / radix64;
        exponent = exponent + 1;
    }
    proof {
        assert(digit_count(radix, mantissa as nat) == 1);
    }
    exponent as i32
}

/// The least number of bits that cover one digit of the radix: for every
/// non-power-of-two radix, the ceiling of its binary logarithm; powers of
/// two are handled by the aligned fast path and get zero.
pub fn integral_binary_factor(radix: u32) -> (r: u32)
    ensures
        2 <= radix <= 36 && odd_part(radix as nat) != 1 ==> pow2((r - 1) as nat) < radix <= pow2(
            r as nat,
        ),
        !(2 <= radix <= 36) || odd_part(radix as nat) == 1 ==> r == 0,
{
    proof {
        reveal_with_fuel(odd_part, 8);
        lemma2_to64();
    }
    match radix {
        3 => 2,
        5 => 3,
        6 => 3,
        7 => 3,
        9 => 4,
        10 => 4,
        11 => 4,
        12 => 4,
        13 => 4,
        14 => 4,
        15 => 4,
        17 => 5,
        18 => 5,
        19 => 5,
        20 => 5,
        21 => 5,
        22 => 5,
        23 => 5,
        24 => 5,
        25 => 5,
        26 => 5,
        27 => 5,
        28 => 5,
        29 => 5,
        30 => 5,
        31 => 5,
        33 => 6,
        34 => 6,
        35 => 6,
        36 => 6,
        _ => 0,
    }
}

/// The result of scaling the digits by a nonnegative residual radix power
/// and rounding to the format: the scaled value is an exact integer whose
/// top 64 bits and sticky flag feed the nearest-ties-even rounding.
pub open spec fn positive_digit_comp_spec(
    fmt: FloatFormat,
    v: nat,
    radix: u32,
    exponent: nat,
) -> ExtendedFloat80 {
    let scaled = v * pow_nat(radix as nat, exponent);
    let bl = nat_bit_length(scaled);
    let mant = (scaled * pow2(64)) as int / (pow2(bl) as int);
    let trunc = (scaled * pow2(64)) as int % (pow2(bl) as int) != 0;
    round_spec(
        fmt,
        ExtendedFloat80 { mant: mant as u64, exp: (bl + fmt.exponent_bias - 64) as i32 },
        RoundKind::NearestTieEven(trunc),
    )
}

/// Scale the parsed digits up by the residual radix power and round.
pub fn positive_digit_comp(
    bigmant: Bigint,
    exponent: u32,
    radix: u32,
    fmt: &FloatFormat,
) -> (r: ExtendedFloat80)
    requires
        fmt.wf(),
        bigmant.wf(),
        2 <= radix <= 36,
        exponent <= 64 * BIGINT_LIMBS,
        bigmant.value() * pow_nat(radix as nat, exponent as nat) < pow2((64 * BIGINT_LIMBS) as nat),
    ensures
        r == positive_digit_comp_spec(*fmt, bigmant.value(), radix, exponent as nat),
{
    let mut bigmant = bigmant;
    bigmant.pow(radix, exponent);
    let hi = bigmant.hi64();
    let bl = bigmant.bit_length();
    proof {
        lemma2_to64();
        // The scaled value fits the capacity, so its bit length is bounded.
        if bl > 0 {
            if bl - 1 >= 64 * BIGINT_LIMBS {
                lemma_pow2_strictly_increases((64 * BIGINT_LIMBS) as nat, (bl - 1) as nat);
                lemma_pow2_pos((64 * BIGINT_LIMBS) as nat);
                assert(false);
            }
        }
    }
    let fp = ExtendedFloat80 {
        mant: hi.0,
        exp: (bl as i32) + fmt.exponent_bias - 64,
    };
    round(fp, fmt, RoundKind::NearestTieEven(hi.1))
}

/// The ordering of the scaled digits against the scaled halfway point of
/// the candidate: the digits carry a negative radix exponent and the
/// halfway point `b+h` carries its binary exponent, so both sides are
/// multiplied up to integers, pulling a factor of two out of an even radix.
pub open spec fn halfway_ordering(
    fmt: FloatFormat,
    v: nat,
    fp: ExtendedFloat80,
    exponent: int,
    radix: u32,
) -> core::cmp::Ordering {
    let bits = pack_spec(fmt, round_spec(fmt, fp, RoundKind::Down));
    let tm = 2 * b_mant_spec(fmt, bits) + 1;
    let te = b_exp_spec(fmt, bits) - 1;
    let even = radix % 2 == 0;
    let hrf: u32 = if even {
        radix / 2
    } else {
        radix
    };
    let bexp: int = if even {
        te - exponent
    } else {
        te
    };
    let theor = tm * pow_nat(hrf as nat, (-exponent) as nat) * (if bexp >= 0 {
        pow2(bexp as nat)
    } else {
        1
    });
    let scaled_v = v * (if bexp < 0 {
        pow2((-bexp) as nat)
    } else {
        1
    });
    if scaled_v < theor {
        core::cmp::Ordering::Less
    } else if scaled_v == theor {
        core::cmp::Ordering::Equal
    } else {
        core::cmp::Ordering::Greater
    }
}

/// The capacity discipline for the halfway comparison: each scaled side
/// fits the big integer, and the exponents fit its bit budget.
pub open spec fn halfway_fits(
    fmt: FloatFormat,
    v: nat,
    fp: ExtendedFloat80,
    exponent: int,
    radix: u32,
) -> bool {
    let bits = pack_spec(fmt, round_spec(fmt, fp, RoundKind::Down));
    let tm = 2 * b_mant_spec(fmt, bits) + 1;
    let te = b_exp_spec(fmt, bits) - 1;
    let even = radix % 2 == 0;
    let hrf: u32 = if even {
        radix / 2
    } else {
        radix
    };
    let bexp: int = if even {
        te - exponent
    } else {
        te
    };
    &&& 0 < -exponent <= 64 * BIGINT_LIMBS
    &&& -(64 * BIGINT_LIMBS) <= bexp <= 64 * BIGINT_LIMBS
    &&& tm * pow_nat(hrf as nat, (-exponent) as nat) < pow2((64 * BIGINT_LIMBS) as nat)
    &&& (bexp >= 0 ==> tm * pow_nat(hrf as nat, (-exponent) as nat) * pow2(bexp as nat) < pow2(
        (64 * BIGINT_LIMBS) as nat,
    ))
    &&& (bexp < 0 ==> v * pow2((-bexp) as nat) < pow2((64 * BIGINT_LIMBS) as nat))
}

/// Compare the digits against the halfway point of the candidate and round.
pub fn negative_digit_comp(
    bigmant: Bigint,
    fp: ExtendedFloat80,
    exponent: i32,
    radix: u32,
    fmt: &FloatFormat,
) -> (r: ExtendedFloat80)
    requires
        fmt.wf(),
        bigmant.wf(),
        2 <= radix <= 36,
        odd_part(radix as nat) != 1,
        exponent < 0,
        fp.exp <= 0x1000_0000,
        halfway_fits(*fmt, bigmant.value(), fp, exponent as int, radix),
    ensures
        r == round_spec(
            *fmt,
            fp,
            RoundKind::Compared(
                halfway_ordering(*fmt, bigmant.value(), fp, exponent as int, radix),
            ),
        ),
{
    let mut real_digits = bigmant;
    let b_round = round(fp, fmt, RoundKind::Down);
    let bits = extended_to_float(b_round, fmt);
    let theor = bh(bits, fmt);
    let mut theor_digits = Bigint::from_u64(theor.mant);
    let h: u32 = (-exponent) as u32;
    let even = radix % 2 == 0;
    let hrf: u32 = if even {
        radix / 2
    } else {
        radix
    };
    let bexp: i32 = if even {
        theor.exp - exponent
    } else {
        theor.exp
    };
    let ghost tm = theor_digits.value();
    let ghost ph = pow_nat(hrf as nat, h as nat);
    proof {
        lemma2_to64();
        lemma_pow_nat(hrf as nat, h as nat);
        lemma_pow2_pos((bexp >= 0 ==> true) as nat as nat);
        assert(2 <= hrf <= 36) by {
            reveal_with_fuel(odd_part, 8);
            if even && radix / 2 < 2 {
                assert(radix == 2 || radix == 3);
                assert(odd_part(2nat) == 1);
            }
        }
        if bexp >= 0 {
            let p2 = pow2(bexp as nat) as int;
            lemma_pow2_pos(bexp as nat);
            assert(tm * ph <= tm * ph * p2) by (nonlinear_arith)
                requires
                    p2 >= 1,
                    tm * ph >= 0,
            ;
        }
    }
    theor_digits.pow(hrf, h);
    if bexp > 0 {
        proof {
            lemma_pow2(bexp as nat);
            lemma_pow_nat(2, bexp as nat);
        }
        theor_digits.pow(2, bexp as u32);
        proof {
            assert(theor_digits.value() == (tm * ph) * pow2(bexp as nat)) by {
                lemma_pow2(bexp as nat);
                lemma_pow_nat(2, bexp as nat);
            }
        }
    } else if bexp < 0 {
        proof {
            lemma_pow2((-bexp) as nat);
            lemma_pow_nat(2, (-bexp) as nat);
        }
        real_digits.pow(2, (-bexp) as u32);
    }
    proof {
        lemma2_to64();
        if bexp == 0 {
            assert(pow2(0) == 1);
            assert(tm * ph * 1 == tm * ph) by (nonlinear_arith);
        }
    }
    let ord = compare(real_digits.data.as_slice(), theor_digits.data.as_slice());
    round(fp, fmt, RoundKind::Compared(ord))
}

/// The result of the digit-comparison path for the stream's significand
/// digits: scale up for a nonnegative residual exponent, compare against the
/// halfway point for a negative one.
pub open spec fn digit_comp_spec(
    fmt: FloatFormat,
    ds: Seq<u32>,
    fp: ExtendedFloat80,
    sci_exp: int,
    max_digits: usize,
    radix: u32,
) -> ExtendedFloat80 {
    let n = parsed_count(ds, max_digits);
    let v = parsed_value(ds, radix, max_digits);
    let exponent = sci_exp + 1 - n;
    if exponent >= 0 {
        positive_digit_comp_spec(fmt, v, radix, exponent as nat)
    } else {
        round_spec(fmt, fp, RoundKind::Compared(halfway_ordering(fmt, v, fp, exponent, radix)))
    }
}

/// The digit-comparison algorithm: parse the significant digits and resolve
/// the candidate's rounding exactly.
pub fn digit_comp(
    bytes: &[u8],
    fp: ExtendedFloat80,
    sci_exp: i32,
    decimal_point: u8,
    max_digits: usize,
    radix: u32,
    fmt: &FloatFormat,
) -> (r: ExtendedFloat80)
    requires
        fmt.wf(),
        2 <= radix <= 36,
        odd_part(radix as nat) != 1,
        1 <= max_digits <= 900,
        -0x4000_0000 <= sci_exp <= 0x4000_0000,
        fp.exp <= 0x1000_0000,
        ({
            let ds = sig_digits(bytes@, decimal_point, radix, false);
            let n = parsed_count(ds, max_digits);
            let v = parsed_value(ds, radix, max_digits);
            let exponent = sci_exp + 1 - n;
            &&& (exponent >= 0 ==> exponent <= 64 * BIGINT_LIMBS && v * pow_nat(
                radix as nat,
                exponent as nat,
            ) < pow2((64 * BIGINT_LIMBS) as nat))
            &&& (exponent < 0 ==> halfway_fits(*fmt, v, fp, exponent, radix))
        }),
    ensures
        r == digit_comp_spec(
            *fmt,
            sig_digits(bytes@, decimal_point, radix, false),
            fp,
            sci_exp as int,
            max_digits,
            radix,
        ),
{
    let parsed = parse_mantissa(bytes, decimal_point, radix, max_digits);
    let bigmant = parsed.0;
    let digits = parsed.1;
    let exponent: i32 = sci_exp + 1 - (digits as i32);
    if exponent >= 0 {
        positive_digit_comp(bigmant, exponent as u32, radix, fmt)
    } else {
        negative_digit_comp(bigmant, fp, exponent, radix, fmt)
    }
}

/// The result of the slow path: the scientific exponent places the radix
/// point after the first significant digit, and the digit comparison
/// resolves the rounding against that.
pub open spec fn slow_radix_spec(
    fmt: FloatFormat,
    bytes: Seq<u8>,
    num: Number,
    fp: ExtendedFloat80,
    decimal_point: u8,
    radix: u32,
) -> ExtendedFloat80 {
    let sci_exp = num.exponent + digit_count(radix, num.mantissa as nat) - 1;
    let md = if fmt.mantissa_size == 52 {
        f64_max_digits_spec(radix)
    } else {
        f32_max_digits_spec(radix)
    };
    digit_comp_spec(
        fmt,
        sig_digits(bytes, decimal_point, radix, false),
        fp,
        sci_exp,
        md->Some_0,
        radix,
    )
}

/// The slow path: resolve the exact rounding of a candidate float from all
/// the significant digits of the input.  The byte stream starts at the first
/// significand digit; the number summary supplies the scientific exponent;
/// the candidate's significand must be normalized.  Radixes with both even
/// and odd factors have a finite digit budget and take the digit-comparison
/// path.
pub fn slow_radix(
    bytes: &[u8],
    num: &Number,
    fp: ExtendedFloat80,
    decimal_point: u8,
    radix: u32,
    fmt: &FloatFormat,
) -> (r: ExtendedFloat80)
    requires
        fmt.wf(),
        2 <= radix <= 36,
        radix % 2 == 0,
        odd_part(radix as nat) != 1,
        fp.mant >= pow2(63),
        fp.exp <= 0x1000_0000,
        -0x2000_0000 <= num.exponent <= 0x2000_0000,
        ({
            let sci_exp = num.exponent + digit_count(radix, num.mantissa as nat) - 1;
            let md = if fmt.mantissa_size == 52 {
                f64_max_digits_spec(radix)
            } else {
                f32_max_digits_spec(radix)
            };
            let ds = sig_digits(bytes@, decimal_point, radix, false);
            let n = parsed_count(ds, md->Some_0);
            let v = parsed_value(ds, radix, md->Some_0);
            let exponent = sci_exp + 1 - n;
            &&& (exponent >= 0 ==> exponent <= 64 * BIGINT_LIMBS && v * pow_nat(
                radix as nat,
                exponent as nat,
            ) < pow2((64 * BIGINT_LIMBS) as nat))
            &&& (exponent < 0 ==> halfway_fits(*fmt, v, fp, exponent, radix))
        }),
    ensures
        r == slow_radix_spec(*fmt, bytes@, *num, fp, decimal_point, radix),
{
    let sci_exp = scientific_exponent(num, radix);
    let md_opt = if fmt.mantissa_size == 52 {
        f64_max_digits(radix)
    } else {
        f32_max_digits(radix)
    };
    match md_opt {
        Some(max_digits) => digit_comp(bytes, fp, sci_exp, decimal_point, max_digits, radix, fmt),
        None => {
            proof {
                assert(false);
            }
            fp
        },
    }
}

/// The digit stream with its leading zero digits removed.
pub open spec fn skip_leading_zeros(ds: Seq<u32>) -> Seq<u32>
    decreases ds.len(),
{
    if ds.len() > 0 && ds[0] == 0 {
        skip_leading_zeros(ds.skip(1))
    } else {
        ds
    }
}

/// The ordering of a digit stream against the ratio `num / den`, decided by
/// generating the theoretical digits one long-division step at a time: the
/// first differing digit decides; a spent numerator with nonzero digits left
/// means the stream is larger; a spent stream with a live numerator means it
/// is smaller.
pub open spec fn compare_digits_spec(ds: Seq<u32>, radix: u32, num: nat, den: nat) -> core::cmp::Ordering
    decreases ds.len(),
{
    if num == 0 {
        if has_nonzero(ds) {
            core::cmp::Ordering::Greater
        } else {
            core::cmp::Ordering::Equal
        }
    } else if ds.len() == 0 {
        core::cmp::Ordering::Less
    } else {
        let expected = num / den;
        if ds[0] < expected {
            core::cmp::Ordering::Less
        } else if ds[0] > expected {
            core::cmp::Ordering::Greater
        } else {
            compare_digits_spec(ds.skip(1), radix, ((num % den) * radix) as nat, den)
        }
    }
}

/// Compare the input's significand digits against the theoretical digits of
/// the ratio `num / den`, generated on the fly by single-digit divisions.
pub fn compare_bytes(
    bytes: &[u8],
    num: Bigfloat,
    den: &Bigfloat,
    decimal_point: u8,
    radix: u32,
) -> (r: core::cmp::Ordering)
    requires
        num.wf(),
        den.wf(),
        2 <= radix <= 36,
        1 <= den.data@.len(),
        0x1_0000_0000 <= den.data@.last() < 0x8000_0000_0000_0000,
        num.data@.len() <= den.data@.len(),
        den.value() * radix <= pow2((64 * den.data@.len()) as nat),
    ensures
        r == compare_digits_spec(
            skip_leading_zeros(sig_digits(bytes@, decimal_point, radix, false)),
            radix,
            num.value(),
            den.value(),
        ),
{
    let ghost denv = den.value();
    let ghost numv = num.value();
    let ghost ds0 = skip_leading_zeros(sig_digits(bytes@, decimal_point, radix, false));
    let mut work = num;
    let mut i: usize = 0;
    let mut seen_point = false;
    proof {
        lemma_limbs_value_lower(den.data@);
        lemma_pow2_pos((64 * (den.data@.len() - 1)) as nat);
        assert(bytes@.skip(0) =~= bytes@);
    }
    // Skip the leading zero digits, stepping over one decimal point.
    let mut done = false;
    while i < bytes.len() && !done
        invariant
            2 <= radix <= 36,
            i <= bytes@.len(),
            ds0 == skip_leading_zeros(
                sig_digits(bytes@.skip(i as int), decimal_point, radix, seen_point),
            ),
            done ==> ds0 == sig_digits(bytes@.skip(i as int), decimal_point, radix, seen_point),
        decreases bytes@.len() - i, (if done { 0int } else { 1int }),
    {
        let c = bytes[i];
        let ghost rest = bytes@.skip(i as int);
        proof {
            assert(rest[0] == bytes@[i as int]);
            assert(rest.skip(1) =~= bytes@.skip(i + 1));
        }
        match char_to_digit(c, radix) {
            Some(d) => {
                if d != 0 {
                    proof {
                        let tail = sig_digits(
                            bytes@.skip(i + 1),
                            decimal_point,
                            radix,
                            seen_point,
                        );
                        assert(sig_digits(rest, decimal_point, radix, seen_point) == seq![d].add(
                            tail,
                        ));
                        assert(seq![d].add(tail)[0] == d);
                    }
                    done = true;
                } else {
                    proof {
                        let tail = sig_digits(
                            bytes@.skip(i + 1),
                            decimal_point,
                            radix,
                            seen_point,
                        );
                        assert(sig_digits(rest, decimal_point, radix, seen_point) == seq![d].add(
                            tail,
                        ));
                        assert(seq![d].add(tail)[0] == 0);
                        assert(seq![d].add(tail).skip(1) =~= tail);
                    }
                    i = i + 1;
                }
            },
            None => {
                if c == decimal_point && !seen_point {
                    seen_point = true;
                    i = i + 1;
                } else {
                    proof {
                        assert(sig_digits(rest, decimal_point, radix, seen_point)
                            =~= Seq::<u32>::empty());
                    }
                    done = true;
                }
            },
        }
    }
    proof {
        if !done {
            assert(bytes@.skip(i as int) =~= Seq::<u8>::empty());
            assert(sig_digits(Seq::<u8>::empty(), decimal_point, radix, seen_point)
                =~= Seq::<u32>::empty());
        }
        assert(ds0 == sig_digits(bytes@.skip(i as int), decimal_point, radix, seen_point));
    }
    // Generate theoretical digits while the numerator is live.
    while i < bytes.len() && work.data.len() != 0
        invariant
            work.wf(),
            den.wf(),
            denv == den.value(),
            2 <= radix <= 36,
            i <= bytes@.len(),
            1 <= den.data@.len() <= BIGFLOAT_LIMBS,
            0x1_0000_0000 <= den.data@.last() < 0x8000_0000_0000_0000,
            work.data@.len() <= den.data@.len(),
            denv * radix <= pow2((64 * den.data@.len()) as nat),
            denv == den.value(),
            ds0 == skip_leading_zeros(sig_digits(bytes@, decimal_point, radix, false)),
            compare_digits_spec(ds0, radix, num.value(), denv) == compare_digits_spec(
                sig_digits(bytes@.skip(i as int), decimal_point, radix, seen_point),
                radix,
                work.value(),
                denv,
            ),
        decreases bytes@.len() - i,
    {
        let c = bytes[i];
        let ghost rest = bytes@.skip(i as int);
        proof {
            assert(rest[0] == bytes@[i as int]);
            assert(rest.skip(1) =~= bytes@.skip(i + 1));
            lemma_limbs_value_lower(work.data@);
            lemma_pow2_pos((64 * (work.data@.len() - 1)) as nat);
            assert(work.value() > 0);
        }
        match char_to_digit(c, radix) {
            Some(d) => {
                let ghost tail = sig_digits(bytes@.skip(i + 1), decimal_point, radix, seen_point);
                let ghost cur = sig_digits(rest, decimal_point, radix, seen_point);
                let ghost wv = work.value();
                proof {
                    assert(cur == seq![d].add(tail));
                    assert(cur[0] == d);
                    assert(cur.skip(1) =~= tail);
                    assert(cur.len() > 0);
                }
                let q = crate::quorem::large_quorem(&mut work.data, den.data.as_slice());
                proof {
                    assert(q == wv / denv);
                    assert(work.value() == wv % denv);
                }
                if (d as u64) < q {
                    proof {
                        assert(compare_digits_spec(cur, radix, wv, denv)
                            == core::cmp::Ordering::Less);
                    }
                    return core::cmp::Ordering::Less;
                }
                if (d as u64) > q {
                    proof {
                        assert(compare_digits_spec(cur, radix, wv, denv)
                            == core::cmp::Ordering::Greater);
                    }
                    return core::cmp::Ordering::Greater;
                }
                proof {
                    assert(compare_digits_spec(cur, radix, wv, denv) == compare_digits_spec(
                        tail,
                        radix,
                        ((wv % denv) * radix) as nat,
                        denv,
                    ));
                }
                proof {
                    // The scaled remainder stays within the divisor's span.
                    let rv = work.value() as int;
                    lemma_limbs_value_bound(work.data@);
                    assert(rv * radix < denv * radix) by (nonlinear_arith)
                        requires
                            rv < denv,
                            radix >= 2,
                            rv >= 0,
                    ;
                    if den.data@.len() < BIGFLOAT_LIMBS {
                        lemma_pow2_strictly_increases(
                            (64 * den.data@.len()) as nat,
                            (64 * BIGFLOAT_LIMBS) as nat,
                        );
                    }
                }
                small_mul(&mut work.data, radix as u64);
                proof {
                    if work.data@.len() > den.data@.len() {
                        lemma_limbs_value_lower(work.data@);
                        assert(false);
                    }
                }
            },
            None => {
                if c == decimal_point && !seen_point {
                    seen_point = true;
                } else {
                    proof {
                        assert(sig_digits(rest, decimal_point, radix, seen_point)
                            =~= Seq::<u32>::empty());
                        assert(skip_leading_zeros(Seq::<u32>::empty()) =~= Seq::<u32>::empty());
                    }
                    return core::cmp::Ordering::Less;
                }
            },
        }
        i = i + 1;
    }
    if work.data.len() != 0 {
        proof {
            assert(bytes@.skip(i as int) =~= Seq::<u8>::empty());
            assert(sig_digits(Seq::<u8>::empty(), decimal_point, radix, seen_point)
                =~= Seq::<u32>::empty());
            assert(skip_leading_zeros(Seq::<u32>::empty()) =~= Seq::<u32>::empty());
            lemma_limbs_value_lower(work.data@);
            lemma_pow2_pos((64 * (work.data@.len() - 1)) as nat);
        }
        return core::cmp::Ordering::Less;
    }
    // The numerator is spent: any nonzero digit left makes the input larger.
    while i < bytes.len()
        invariant
            2 <= radix <= 36,
            i <= bytes@.len(),
            work.value() == 0,
            denv == den.value(),
            ds0 == skip_leading_zeros(sig_digits(bytes@, decimal_point, radix, false)),
            compare_digits_spec(ds0, radix, num.value(), denv) == (if has_nonzero(
                sig_digits(bytes@.skip(i as int), decimal_point, radix, seen_point),
            ) {
                core::cmp::Ordering::Greater
            } else {
                core::cmp::Ordering::Equal
            }),
        decreases bytes@.len() - i,
    {
        let c = bytes[i];
        let ghost rest = bytes@.skip(i as int);
        proof {
            assert(rest[0] == bytes@[i as int]);
            assert(rest.skip(1) =~= bytes@.skip(i + 1));
        }
        match char_to_digit(c, radix) {
            Some(d) => {
                proof {
                    let tail = sig_digits(bytes@.skip(i + 1), decimal_point, radix, seen_point);
                    assert(sig_digits(rest, decimal_point, radix, seen_point) == seq![d].add(tail));
                    assert(seq![d].add(tail)[0] == d);
                    assert(seq![d].add(tail).skip(1) =~= tail);
                }
                if d != 0 {
                    return core::cmp::Ordering::Greater;
                }
            },
            None => {
                if c == decimal_point && !seen_point {
                    seen_point = true;
                } else {
                    proof {
                        assert(sig_digits(rest, decimal_point, radix, seen_point)
                            =~= Seq::<u32>::empty());
                    }
                    return core::cmp::Ordering::Equal;
                }
            },
        }
        i = i + 1;
    }
    proof {
        assert(bytes@.skip(i as int) =~= Seq::<u8>::empty());
        assert(sig_digits(Seq::<u8>::empty(), decimal_point, radix, seen_point)
            =~= Seq::<u32>::empty());
    }
    core::cmp::Ordering::Equal
}

} // verus!
