//! The shared rounder: shift an extended-precision float down to a format's
//! precision, decide the rounding, handle subnormal shifts, carry into the
//! hidden bit, and overflow to infinity.

use vstd::prelude::*;

verus! {

use vstd::arithmetic::power2::{
    pow2, lemma2_to64, lemma2_to64_rest, lemma_pow2_adds, lemma_pow2_pos,
    lemma_pow2_strictly_increases, lemma_pow2_unfold,
};
use vstd::arithmetic::div_mod::{
    lemma_fundamental_div_mod, lemma_mod_division_less_than_divisor, lemma_div_pos_is_pos,
    lemma_basic_div,
};
use vstd::arithmetic::mul::lemma_mul_inequality;
use crate::float::{ExtendedFloat80, FloatFormat};

/// The bias added to a result exponent to mark an unresolved halfway case
/// that a slower algorithm must settle.
pub const INVALID_FP: i32 = -0x8000;

/// How the dropped bits decide the rounding.
pub enum RoundKind {
    /// Truncate toward zero, used to recover `b` from a candidate.
    Down,
    /// Round to nearest, ties to even; the flag reports nonzero bits already
    /// dropped below the 64-bit significand.
    NearestTieEven(bool),
    /// Round by a full-precision comparison against the halfway point:
    /// greater rounds up, equal rounds to even.
    Compared(core::cmp::Ordering),
    /// Apply a rounding decision computed beforehand from the digits.
    Decided(bool),
}

/// Whether the rounding adds one to the shifted significand.
pub open spec fn round_up_spec(kind: RoundKind, is_odd: bool, is_halfway: bool, is_above: bool) -> bool {
    match kind {
        RoundKind::Down => false,
        RoundKind::NearestTieEven(truncated) => is_above || (is_odd && (is_halfway || truncated)),
        RoundKind::Compared(ord) => ord == core::cmp::Ordering::Greater || (ord
            == core::cmp::Ordering::Equal && is_odd),
        RoundKind::Decided(up) => up,
    }
}

/// The significand shifted down by `shift` bits and rounded by the kind's
/// decision over the dropped bits.
pub open spec fn rounded_mantissa_spec(mant: nat, shift: nat, kind: RoundKind) -> nat {
    let shifted = mant / pow2(shift);
    let dropped = mant % pow2(shift);
    let half = pow2(shift) / 2;
    let up = round_up_spec(kind, shifted % 2 == 1, dropped == half, dropped > half);
    if up {
        shifted + 1
    } else {
        shifted
    }
}

/// The rounded form of an extended float: the final mantissa field and
/// biased exponent, with subnormal shifts, the carry into the hidden bit,
/// and overflow to infinity all applied.  A zero significand denotes zero
/// and packs to the zero representation.
pub open spec fn round_spec(fmt: FloatFormat, fp: ExtendedFloat80, kind: RoundKind) -> ExtendedFloat80 {
    let ms = fmt.mantissa_size as int;
    let mshift = 64 - ms - 1;
    if fp.mant == 0 {
        ExtendedFloat80 { mant: 0, exp: 0 }
    } else if fp.exp + mshift <= 0 {
        // Subnormal: shift to the denormal exponent and test the hidden bit.
        let shift = 1 - fp.exp;
        if shift > 64 {
            ExtendedFloat80 { mant: 0, exp: 0 }
        } else {
            let m = rounded_mantissa_spec(fp.mant as nat, shift as nat, kind);
            ExtendedFloat80 {
                mant: m as u64,
                exp: if m >= pow2(ms as nat) {
                    1
                } else {
                    0
                },
            }
        }
    } else {
        let m = rounded_mantissa_spec(fp.mant as nat, mshift as nat, kind);
        let carried = m == pow2((ms + 1) as nat);
        let m2: nat = if carried {
            (m / 2) as nat
        } else {
            m
        };
        let e2 = if carried {
            fp.exp + mshift + 1
        } else {
            fp.exp + mshift
        };
        if e2 >= fmt.infinite_power {
            ExtendedFloat80 { mant: 0, exp: fmt.infinite_power }
        } else {
            ExtendedFloat80 { mant: (m2 % pow2(ms as nat)) as u64, exp: e2 as i32 }
        }
    }
}

/// Shift the significand down by `shift` bits, `11 <= shift <= 64`, and
/// round by the kind's decision over the dropped bits.
fn rounded_mantissa(mant: u64, shift: u32, kind: RoundKind) -> (r: u64)
    requires
        11 <= shift <= 64,
    ensures
        r == rounded_mantissa_spec(mant as nat, shift as nat, kind),
        r <= pow2((64 - shift) as nat),
{
    let ghost p = pow2(shift as nat);
    let shifted: u64;
    let dropped: u64;
    let half: u64;
    if shift == 64 {
        proof {
            lemma2_to64();
            lemma2_to64_rest();
            vstd::arithmetic::div_mod::lemma_basic_div(mant as int, pow2(64) as int);
            vstd::arithmetic::div_mod::lemma_small_mod(mant as nat, pow2(64));
        }
        shifted = 0;
        dropped = mant;
        half = 0x8000_0000_0000_0000;
    } else {
        proof {
            lemma2_to64();
            lemma2_to64_rest();
            if shift < 63 {
                lemma_pow2_strictly_increases(shift as nat, 63);
            }
            vstd::bits::lemma_u64_shl_is_mul(1u64, shift as u64);
        }
        let pw: u64 = 1u64 << (shift as u64);
        shifted = mant / pw;
        dropped = mant % pw;
        half = pw / 2;
        proof {
            // The shifted value fits below `2^(64-shift)`.
            lemma_fundamental_div_mod(mant as int, pw as int);
            lemma_pow2_adds((64 - shift) as nat, shift as nat);
            assert(shifted < pow2((64 - shift) as nat)) by (nonlinear_arith)
                requires
                    mant == pw * shifted + dropped,
                    dropped >= 0,
                    mant < pow2(64),
                    pow2(64) == pow2((64 - shift) as nat) * pw,
                    pw > 0,
            ;
        }
    }
    proof {
        lemma_pow2_pos((64 - shift) as nat);
        if shift == 64 {
            assert(pow2(0) == 1) by {
                lemma2_to64();
            }
        }
    }
    let is_odd = shifted % 2 == 1;
    let is_halfway = dropped == half;
    let is_above = dropped > half;
    let up = match kind {
        RoundKind::Down => false,
        RoundKind::NearestTieEven(truncated) => is_above || (is_odd && (is_halfway || truncated)),
        RoundKind::Compared(ord) => {
            let gt = matches!(ord, core::cmp::Ordering::Greater);
            let eq = matches!(ord, core::cmp::Ordering::Equal);
            gt || (eq && is_odd)
        },
        RoundKind::Decided(up) => up,
    };
    proof {
        assert(half == pow2(shift as nat) / 2);
    }
    if up {
        shifted + 1
    } else {
        shifted
    }
}

/// Round an extended-precision float to the format: shift to the format's
/// precision (or to the subnormal exponent), decide the rounding from the
/// dropped bits, carry, and clamp to infinity.  The result is the mantissa
/// field and biased exponent, ready to pack.
pub fn round(fp: ExtendedFloat80, fmt: &FloatFormat, kind: RoundKind) -> (r: ExtendedFloat80)
    requires
        fmt.wf(),
        fp.exp <= 0x1000_0000,
    ensures
        r == round_spec(*fmt, fp, kind),
        0 <= r.exp <= fmt.infinite_power,
        r.mant < pow2(fmt.mantissa_size as nat) || (r.mant == pow2(fmt.mantissa_size as nat)
            && r.exp == 1),
{
    let ms = fmt.mantissa_size as i32;
    let mshift: i32 = 64 - ms - 1;
    let hidden = fmt.hidden_bit();
    proof {
        lemma2_to64();
        lemma2_to64_rest();
    }
    if fp.mant == 0 {
        return ExtendedFloat80 { mant: 0, exp: 0 };
    }
    if fp.exp + mshift <= 0 {
        if fp.exp < -63 {
            return ExtendedFloat80 { mant: 0, exp: 0 };
        }
        let shift = 1 - fp.exp;
        let m = rounded_mantissa(fp.mant, shift as u32, kind);
        proof {
            lemma_pow2_strictly_increases((64 - shift) as nat, 63);
            if m > pow2(fmt.mantissa_size as nat) {
                lemma_pow2_strictly_increases(
                    fmt.mantissa_size as nat,
                    (64 - shift) as nat,
                );
            }
        }
        let e: i32 = if m >= hidden {
            1
        } else {
            0
        };
        ExtendedFloat80 { mant: m, exp: e }
    } else {
        let m = rounded_mantissa(fp.mant, mshift as u32, kind);
        proof {
            lemma_pow2_adds(fmt.mantissa_size as nat, 1);
            lemma_pow2_pos(fmt.mantissa_size as nat);
        }
        let carry = 2 * hidden;
        let m2: u64;
        let e2: i32;
        if m == carry {
            m2 = m / 2;
            e2 = fp.exp + mshift + 1;
        } else {
            m2 = m;
            e2 = fp.exp + mshift;
        }
        if e2 >= fmt.infinite_power {
            ExtendedFloat80 { mant: 0, exp: fmt.infinite_power }
        } else {
            proof {
                lemma_mod_division_less_than_divisor(m2 as int, hidden as int);
            }
            ExtendedFloat80 { mant: m2 % hidden, exp: e2 }
        }
    }
}

} // verus!
