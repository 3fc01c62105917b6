//! The extended-precision float handed between the fast and slow paths, the
//! parsed-number summary, and the description of an IEEE-754 binary format
//! as a plain record of constants.

use vstd::prelude::*;

verus! {

use vstd::arithmetic::power2::{
    pow2, lemma2_to64, lemma2_to64_rest, lemma_pow2_adds, lemma_pow2_pos,
    lemma_pow2_strictly_increases,
};
use vstd::arithmetic::div_mod::{
    lemma_fundamental_div_mod, lemma_fundamental_div_mod_converse,
    lemma_mod_division_less_than_divisor, lemma_div_pos_is_pos,
};
use vstd::arithmetic::mul::{lemma_mul_is_commutative, lemma_mul_inequality};

/// An extended-precision float: a 64-bit significand and a signed binary
/// exponent.  Inside the rounding algorithms the exponent is biased by the
/// format's `exponent_bias`, so the final value packs directly into the
/// IEEE-754 bit pattern.
#[derive(Clone, Copy, PartialEq, Eq, Structural, Debug)]
pub struct ExtendedFloat80 {
    /// The significand.
    pub mant: u64,
    /// The binary exponent of the significand's least bit.
    pub exp: i32,
}

/// The summary a parser hands to the slow path: the significand packed into
/// a word (possibly truncated), the exponent relative to the decimal point,
/// and whether digits were dropped.
#[derive(Clone, Copy, PartialEq, Eq, Structural, Debug)]
pub struct Number {
    /// The integer and fraction digits, as far as they fit.
    pub mantissa: u64,
    /// The exponent relative to the decimal point.
    pub exponent: i64,
    /// Whether the significand was truncated.
    pub many_digits: bool,
}

/// The constants of an IEEE-754 binary format.  The bias here includes the
/// significand size, so a biased exponent of `e` puts the significand's
/// least bit at `2^(e - exponent_bias)`.
#[derive(Clone, Copy, PartialEq, Eq, Structural, Debug)]
pub struct FloatFormat {
    /// Explicit significand bits (52 for binary64, 23 for binary32).
    pub mantissa_size: u32,
    /// IEEE exponent bias plus the significand size (1075, 150).
    pub exponent_bias: i32,
    /// The biased exponent that encodes infinity (0x7ff, 0xff).
    pub infinite_power: i32,
}

impl FloatFormat {
    /// The record describes one of the two supported formats.
    pub open spec fn wf(&self) -> bool {
        ||| (self.mantissa_size == 52 && self.exponent_bias == 1075 && self.infinite_power
            == 0x7ff)
        ||| (self.mantissa_size == 23 && self.exponent_bias == 150 && self.infinite_power == 0xff)
    }

    /// The constants of IEEE-754 binary64.
    pub fn binary64() -> (r: Self)
        ensures
            r.wf(),
            r.mantissa_size == 52,
            r.exponent_bias == 1075,
            r.infinite_power == 0x7ff,
    {
        FloatFormat { mantissa_size: 52, exponent_bias: 1075, infinite_power: 0x7ff }
    }

    /// The constants of IEEE-754 binary32.
    pub fn binary32() -> (r: Self)
        ensures
            r.wf(),
            r.mantissa_size == 23,
            r.exponent_bias == 150,
            r.infinite_power == 0xff,
    {
        FloatFormat { mantissa_size: 23, exponent_bias: 150, infinite_power: 0xff }
    }

    /// The weight of the hidden bit, `2^mantissa_size`.
    pub fn hidden_bit(&self) -> (r: u64)
        requires
            self.wf(),
        ensures
            r == pow2(self.mantissa_size as nat),
    {
        proof {
            lemma2_to64();
            lemma2_to64_rest();
        }
        if self.mantissa_size == 52 {
            0x10_0000_0000_0000
        } else {
            0x80_0000
        }
    }
}

/// The bit pattern of a rounded float: the mantissa field with the biased
/// exponent packed above it.  A subnormal rounding that carried into the
/// hidden bit coincides exactly with the least normal float.
pub open spec fn pack_spec(fmt: FloatFormat, fp: ExtendedFloat80) -> nat {
    if fp.mant == pow2(fmt.mantissa_size as nat) && fp.exp == 1 {
        pow2(fmt.mantissa_size as nat)
    } else {
        (fp.mant + fp.exp * pow2(fmt.mantissa_size as nat)) as nat
    }
}

/// The significand, hidden bit restored, of the float with the given bits.
pub open spec fn b_mant_spec(fmt: FloatFormat, bits: nat) -> nat {
    let ef = bits / pow2(fmt.mantissa_size as nat);
    let mf = bits % pow2(fmt.mantissa_size as nat);
    if ef == 0 {
        mf
    } else {
        (mf + pow2(fmt.mantissa_size as nat)) as nat
    }
}

/// The binary exponent of the significand's least bit of the float with the
/// given bits: subnormals share the least normal exponent.
pub open spec fn b_exp_spec(fmt: FloatFormat, bits: nat) -> int {
    let ef = bits / pow2(fmt.mantissa_size as nat);
    if ef == 0 {
        1 - fmt.exponent_bias
    } else {
        ef - fmt.exponent_bias
    }
}

/// Pack a rounded extended float into its IEEE bit pattern.  The mantissa
/// must sit below the hidden bit and the biased exponent must be in range.
pub fn extended_to_float(fp: ExtendedFloat80, fmt: &FloatFormat) -> (r: u64)
    requires
        fmt.wf(),
        0 <= fp.exp <= fmt.infinite_power,
        fp.mant < pow2(fmt.mantissa_size as nat) || (fp.mant == pow2(fmt.mantissa_size as nat)
            && fp.exp == 1),
    ensures
        r == pack_spec(*fmt, fp),
        (r as nat) / pow2(fmt.mantissa_size as nat) <= fmt.infinite_power,
{
    let hidden = fmt.hidden_bit();
    proof {
        lemma2_to64();
        lemma2_to64_rest();
        assert(fp.exp * hidden <= 0x7ff0_0000_0000_0000) by (nonlinear_arith)
            requires
                0 <= fp.exp <= 0x7ff,
                0 <= hidden <= 0x10_0000_0000_0000,
        ;
        if fp.mant < hidden {
            lemma_fundamental_div_mod_converse(
                (fp.mant + fp.exp * hidden) as int,
                hidden as int,
                fp.exp as int,
                fp.mant as int,
            );
            lemma_mul_is_commutative(fp.exp as int, hidden as int);
        } else {
            lemma_fundamental_div_mod_converse(hidden as int, hidden as int, 1, 0);
        }
    }
    if fp.mant == hidden {
        hidden
    } else {
        fp.mant + (fp.exp as u64) * hidden
    }
}

/// The exact float `b` denoted by the given bit pattern, as a significand
/// and binary exponent.  Relied on by the halfway construction of the
/// digit- and byte-comparison algorithms.
pub fn b(bits: u64, fmt: &FloatFormat) -> (r: ExtendedFloat80)
    requires
        fmt.wf(),
        (bits as nat) / pow2(fmt.mantissa_size as nat) <= fmt.infinite_power,
    ensures
        r.mant == b_mant_spec(*fmt, bits as nat),
        r.exp == b_exp_spec(*fmt, bits as nat),
        r.mant < pow2((fmt.mantissa_size + 1) as nat),
        1 - fmt.exponent_bias <= r.exp <= fmt.infinite_power - fmt.exponent_bias,
    {
    let hidden = fmt.hidden_bit();
    proof {
        lemma2_to64();
        lemma2_to64_rest();
        lemma_pow2_pos(fmt.mantissa_size as nat);
        lemma_mod_division_less_than_divisor(bits as int, hidden as int);
        lemma_pow2_adds(fmt.mantissa_size as nat, 1);
    }
    let ef = bits / hidden;
    let mf = bits % hidden;
    if ef == 0 {
        ExtendedFloat80 { mant: mf, exp: 1 - fmt.exponent_bias }
    } else {
        ExtendedFloat80 { mant: mf + hidden, exp: (ef as i32) - fmt.exponent_bias }
    }
}

/// The halfway point `b+h` above the float with the given bits: one more
/// significand bit, set, one exponent lower.
pub fn bh(bits: u64, fmt: &FloatFormat) -> (r: ExtendedFloat80)
    requires
        fmt.wf(),
        (bits as nat) / pow2(fmt.mantissa_size as nat) <= fmt.infinite_power,
    ensures
        r.mant == 2 * b_mant_spec(*fmt, bits as nat) + 1,
        r.exp == b_exp_spec(*fmt, bits as nat) - 1,
        r.mant < pow2((fmt.mantissa_size + 2) as nat),
{
    let fp = b(bits, fmt);
    proof {
        lemma2_to64();
        lemma2_to64_rest();
        vstd::arithmetic::power2::lemma_pow2_adds((fmt.mantissa_size + 1) as nat, 1);
    }
    ExtendedFloat80 { mant: 2 * fp.mant + 1, exp: fp.exp - 1 }
}

} // verus!
