//! The multi-precision integer and binary-scaled float used by the slow
//! rounding algorithms, and multiplication by a radix power.

use vstd::prelude::*;

verus! {

use vstd::arithmetic::power2::*;
use vstd::arithmetic::div_mod::*;
use vstd::arithmetic::mul::*;
use crate::limbs::{
    limbs_value, limbs_normalized, lemma_limbs_value_lower, odd_part, nat_bit_length,
    pow_nat, lemma_pow_nat,
};
use vstd::std_specs::bits::u64_leading_zeros;
use crate::bigint::{
    StackVec, small_mul, leading_zeros, bit_length, shl_bits, shl_limbs, shl, LIMB_BITS,
};

/// Raise a limb to a power whose result fits in a limb.
pub fn limb_pow(base: u64, exp: u32) -> (r: u64)
    requires
        1 <= base,
        pow_nat(base as nat, exp as nat) <= 0xffff_ffff_ffff_ffff,
    ensures
        r == pow_nat(base as nat, exp as nat),
        r >= 1,
{
    proof {
        lemma_pow_nat(base as nat, exp as nat);
        vstd::arithmetic::power::lemma_pow0(base as int);
    }
    let mut acc: u64 = 1;
    let mut i: u32 = 0;
    while i < exp
        invariant
            i <= exp,
            1 <= base,
            acc == pow_nat(base as nat, i as nat),
            pow_nat(base as nat, exp as nat) <= 0xffff_ffff_ffff_ffff,
        decreases exp - i,
    {
        proof {
            lemma_pow_nat(base as nat, i as nat);
            lemma_pow_nat(base as nat, (i + 1) as nat);
            lemma_pow_nat(base as nat, exp as nat);
            assert(vstd::arithmetic::power::pow(base as int, (i + 1) as nat) == base * vstd::arithmetic::power::pow(base as int, i as nat)) by {
                vstd::arithmetic::power::lemma_pow1(base as int);
                vstd::arithmetic::power::lemma_pow_adds(base as int, 1, i as nat);
            }
            vstd::arithmetic::power::lemma_pow_increases(
                base as nat,
                (i + 1) as nat,
                exp as nat,
            );
            lemma_mul_is_commutative(base as int, vstd::arithmetic::power::pow(base as int, i as nat));
        }
        acc = acc * base;
        i = i + 1;
    }
    proof {
        lemma_pow_nat(base as nat, exp as nat);
        vstd::arithmetic::power::lemma_pow_positive(base as int, exp as nat);
    }
    acc
}

/// Multiply the big integer by `base^exp`, iterating over the largest powers
/// of the base that fit in a limb.
pub fn pow<const SIZE: usize>(x: &mut StackVec<SIZE>, base: u32, exp: u32)
    requires
        old(x).wf(),
        limbs_normalized(old(x)@),
        2 <= base <= 36,
        limbs_value(old(x)@) * pow_nat(base as nat, exp as nat) < pow2((64 * SIZE) as nat),
    ensures
        final(x).wf(),
        limbs_normalized(final(x)@),
        limbs_value(final(x)@) == limbs_value(old(x)@) * pow_nat(base as nat, exp as nat),
{
    let ghost goal = limbs_value(old(x)@) * pow_nat(base as nat, exp as nat);
    let small_step = crate::limits::u64_power_limit(base);
    proof {
        lemma_pow_nat(base as nat, small_step as nat);
    }
    let max_native = limb_pow(base as u64, small_step);
    proof {
        lemma_pow_nat(base as nat, small_step as nat);
        lemma_pow_nat(2, small_step as nat);
        lemma_pow_base_increases(2, base as nat, small_step as nat);
        vstd::arithmetic::power::lemma_pow_increases(2, 1, small_step as nat);
        vstd::arithmetic::power::lemma_pow1(2int);
        assert(max_native >= 2);
    }
    let mut e = exp;
    while e >= small_step
        invariant
            x.wf(),
            limbs_normalized(x@),
            2 <= base <= 36,
            1 <= small_step,
            max_native == pow_nat(base as nat, small_step as nat),
            max_native >= 2,
            limbs_value(x@) * pow_nat(base as nat, e as nat) == goal,
            goal < pow2((64 * SIZE) as nat),
        decreases e,
    {
        proof {
            let v = limbs_value(x@) as int;
            let ps = pow_nat(base as nat, small_step as nat) as int;
            let pr = pow_nat(base as nat, (e - small_step) as nat) as int;
            let pe = pow_nat(base as nat, e as nat) as int;
            lemma_pow_nat(base as nat, small_step as nat);
            lemma_pow_nat(base as nat, (e - small_step) as nat);
            lemma_pow_nat(base as nat, e as nat);
            vstd::arithmetic::power::lemma_pow_adds(
                base as int,
                small_step as nat,
                (e - small_step) as nat,
            );
            assert((v * ps) * pr == v * pe && v * ps <= (v * ps) * pr) by (nonlinear_arith)
                requires
                    pe == ps * pr,
                    v >= 0,
                    ps >= 0,
                    pr >= 1,
            ;
        }
        small_mul(x, max_native);
        e = e - small_step;
    }
    if e != 0 {
        proof {
            lemma_pow_nat(base as nat, e as nat);
            lemma_pow_nat(base as nat, small_step as nat);
            lemma_pow_nat(2, e as nat);
            vstd::arithmetic::power::lemma_pow_increases(base as nat, e as nat, small_step as nat);
            lemma_pow_base_increases(2, base as nat, e as nat);
            vstd::arithmetic::power::lemma_pow_increases(2, 1, e as nat);
            vstd::arithmetic::power::lemma_pow1(2int);
            assert(pow_nat(base as nat, e as nat) >= 2);
            vstd::arithmetic::power::lemma_pow0(base as int);
            assert(limbs_value(x@) * pow_nat(base as nat, e as nat) == goal);
        }
        let p = limb_pow(base as u64, e);
        small_mul(x, p);
        proof {
            vstd::arithmetic::power::lemma_pow0(base as int);
        }
    } else {
        proof {
            vstd::arithmetic::power::lemma_pow0(base as int);
            assert(pow_nat(base as nat, 0) == 1);
            assert(limbs_value(x@) * 1 == limbs_value(x@));
        }
    }
}

/// Split a radix into its odd factor and power-of-two shift: the radix is
/// `odd * 2^shift`, with `odd == 0` marking a pure power of two.
#[verifier::rlimit(100)]
pub fn split_radix(radix: u32) -> (r: (u32, u32))
    ensures
        2 <= radix <= 36 && odd_part(radix as nat) == 1 ==> r.0 == 0 && pow2(r.1 as nat) == radix,
        2 <= radix <= 36 && odd_part(radix as nat) != 1 ==> r.0 == odd_part(radix as nat) && r.0
            * pow2(r.1 as nat) == radix && 3 <= r.0 <= 35,
        !(2 <= radix <= 36) ==> r == (0u32, 0u32),
        r.1 <= 5,
{
    match radix {
        2 => {
            proof {
                reveal_with_fuel(odd_part, 8);
                lemma2_to64();
                assert(odd_part(2) == 1);
                assert(pow2(1) == 2);
            }
            (0u32, 1u32)
        },
        3 => {
            proof {
                reveal_with_fuel(odd_part, 8);
                lemma2_to64();
                assert(odd_part(3) == 3);
                assert(3 * pow2(0) == 3);
            }
            (3u32, 0u32)
        },
        4 => {
            proof {
                reveal_with_fuel(odd_part, 8);
                lemma2_to64();
                assert(odd_part(4) == 1);
                assert(pow2(2) == 4);
            }
            (0u32, 2u32)
        },
        5 => {
            proof {
                reveal_with_fuel(odd_part, 8);
                lemma2_to64();
                assert(odd_part(5) == 5);
                assert(5 * pow2(0) == 5);
            }
            (5u32, 0u32)
        },
        6 => {
            proof {
                reveal_with_fuel(odd_part, 8);
                lemma2_to64();
                assert(odd_part(6) == 3);
                assert(3 * pow2(1) == 6);
            }
            (3u32, 1u32)
        },
        7 => {
            proof {
                reveal_with_fuel(odd_part, 8);
                lemma2_to64();
                assert(odd_part(7) == 7);
                assert(7 * pow2(0) == 7);
            }
            (7u32, 0u32)
        },
        8 => {
            proof {
                reveal_with_fuel(odd_part, 8);
                lemma2_to64();
                assert(odd_part(8) == 1);
                assert(pow2(3) == 8);
            }
            (0u32, 3u32)
        },
        9 => {
            proof {
                reveal_with_fuel(odd_part, 8);
                lemma2_to64();
                assert(odd_part(9) == 9);
                assert(9 * pow2(0) == 9);
            }
            (9u32, 0u32)
        },
        10 => {
            proof {
                reveal_with_fuel(odd_part, 8);
                lemma2_to64();
                assert(odd_part(10) == 5);
                assert(5 * pow2(1) == 10);
            }
            (5u32, 1u32)
        },
        11 => {
            proof {
                reveal_with_fuel(odd_part, 8);
                lemma2_to64();
                assert(odd_part(11) == 11);
                assert(11 * pow2(0) == 11);
            }
            (11u32, 0u32)
        },
        12 => {
            proof {
                reveal_with_fuel(odd_part, 8);
                lemma2_to64();
                assert(odd_part(12) == 3);
                assert(3 * pow2(2) == 12);
            }
            (3u32, 2u32)
        },
        13 => {
            proof {
                reveal_with_fuel(odd_part, 8);
                lemma2_to64();
                assert(odd_part(13) == 13);
                assert(13 * pow2(0) == 13);
            }
            (13u32, 0u32)
        },
        14 => {
            proof {
                reveal_with_fuel(odd_part, 8);
                lemma2_to64();
                assert(odd_part(14) == 7);
                assert(7 * pow2(1) == 14);
            }
            (7u32, 1u32)
        },
        15 => {
            proof {
                reveal_with_fuel(odd_part, 8);
                lemma2_to64();
                assert(odd_part(15) == 15);
                assert(15 * pow2(0) == 15);
            }
            (15u32, 0u32)
        },
        16 => {
            proof {
                reveal_with_fuel(odd_part, 8);
                lemma2_to64();
                assert(odd_part(16) == 1);
                assert(pow2(4) == 16);
            }
            (0u32, 4u32)
        },
        17 => {
            proof {
                reveal_with_fuel(odd_part, 8);
                lemma2_to64();
                assert(odd_part(17) == 17);
                assert(17 * pow2(0) == 17);
            }
            (17u32, 0u32)
        },
        18 => {
            proof {
                reveal_with_fuel(odd_part, 8);
                lemma2_to64();
                assert(odd_part(18) == 9);
                assert(9 * pow2(1) == 18);
            }
            (9u32, 1u32)
        },
        19 => {
            proof {
                reveal_with_fuel(odd_part, 8);
                lemma2_to64();
                assert(odd_part(19) == 19);
                assert(19 * pow2(0) == 19);
            }
            (19u32, 0u32)
        },
        20 => {
            proof {
                reveal_with_fuel(odd_part, 8);
                lemma2_to64();
                assert(odd_part(20) == 5);
                assert(5 * pow2(2) == 20);
            }
            (5u32, 2u32)
        },
        21 => {
            proof {
                reveal_with_fuel(odd_part, 8);
                lemma2_to64();
                assert(odd_part(21) == 21);
                assert(21 * pow2(0) == 21);
            }
            (21u32, 0u32)
        },
        22 => {
            proof {
                reveal_with_fuel(odd_part, 8);
                lemma2_to64();
                assert(odd_part(22) == 11);
                assert(11 * pow2(1) == 22);
            }
            (11u32, 1u32)
        },
        23 => {
            proof {
                reveal_with_fuel(odd_part, 8);
                lemma2_to64();
                assert(odd_part(23) == 23);
                assert(23 * pow2(0) == 23);
            }
            (23u32, 0u32)
        },
        24 => {
            proof {
                reveal_with_fuel(odd_part, 8);
                lemma2_to64();
                assert(odd_part(24) == 3);
                assert(3 * pow2(3) == 24);
            }
            (3u32, 3u32)
        },
        25 => {
            proof {
                reveal_with_fuel(odd_part, 8);
                lemma2_to64();
                assert(odd_part(25) == 25);
                assert(25 * pow2(0) == 25);
            }
            (25u32, 0u32)
        },
        26 => {
            proof {
                reveal_with_fuel(odd_part, 8);
                lemma2_to64();
                assert(odd_part(26) == 13);
                assert(13 * pow2(1) == 26);
            }
            (13u32, 1u32)
        },
        27 => {
            proof {
                reveal_with_fuel(odd_part, 8);
                lemma2_to64();
                assert(odd_part(27) == 27);
                assert(27 * pow2(0) == 27);
            }
            (27u32, 0u32)
        },
        28 => {
            proof {
                reveal_with_fuel(odd_part, 8);
                lemma2_to64();
                assert(odd_part(28) == 7);
                assert(7 * pow2(2) == 28);
            }
            (7u32, 2u32)
        },
        29 => {
            proof {
                reveal_with_fuel(odd_part, 8);
                lemma2_to64();
                assert(odd_part(29) == 29);
                assert(29 * pow2(0) == 29);
            }
            (29u32, 0u32)
        },
        30 => {
            proof {
                reveal_with_fuel(odd_part, 8);
                lemma2_to64();
                assert(odd_part(30) == 15);
                assert(15 * pow2(1) == 30);
            }
            (15u32, 1u32)
        },
        31 => {
            proof {
                reveal_with_fuel(odd_part, 8);
                lemma2_to64();
                assert(odd_part(31) == 31);
                assert(31 * pow2(0) == 31);
            }
            (31u32, 0u32)
        },
        32 => {
            proof {
                reveal_with_fuel(odd_part, 8);
                lemma2_to64();
                assert(odd_part(32) == 1);
                assert(pow2(5) == 32);
            }
            (0u32, 5u32)
        },
        33 => {
            proof {
                reveal_with_fuel(odd_part, 8);
                lemma2_to64();
                assert(odd_part(33) == 33);
                assert(33 * pow2(0) == 33);
            }
            (33u32, 0u32)
        },
        34 => {
            proof {
                reveal_with_fuel(odd_part, 8);
                lemma2_to64();
                assert(odd_part(34) == 17);
                assert(17 * pow2(1) == 34);
            }
            (17u32, 1u32)
        },
        35 => {
            proof {
                reveal_with_fuel(odd_part, 8);
                lemma2_to64();
                assert(odd_part(35) == 35);
                assert(35 * pow2(0) == 35);
            }
            (35u32, 0u32)
        },
        36 => {
            proof {
                reveal_with_fuel(odd_part, 8);
                lemma2_to64();
                assert(odd_part(36) == 9);
                assert(9 * pow2(2) == 36);
            }
            (9u32, 2u32)
        },
        _ => (0, 0),
    }
}

/// A base below another raises to no more at the same exponent.
pub proof fn lemma_pow_base_increases(b: nat, c: nat, e: nat)
    requires
        b <= c,
    ensures
        vstd::arithmetic::power::pow(b as int, e) <= vstd::arithmetic::power::pow(c as int, e),
    decreases e,
{
    lemma_pow_nat(b, e);
    lemma_pow_nat(c, e);
    if e == 0 {
        vstd::arithmetic::power::lemma_pow0(b as int);
        vstd::arithmetic::power::lemma_pow0(c as int);
    }
    if e > 0 {
        lemma_pow_base_increases(b, c, (e - 1) as nat);
        lemma_pow_nat(b, (e - 1) as nat);
        lemma_pow_nat(c, (e - 1) as nat);
        vstd::arithmetic::power::lemma_pow1(b as int);
        vstd::arithmetic::power::lemma_pow_adds(b as int, 1, (e - 1) as nat);
        vstd::arithmetic::power::lemma_pow1(c as int);
        vstd::arithmetic::power::lemma_pow_adds(c as int, 1, (e - 1) as nat);
        let pb = vstd::arithmetic::power::pow(b as int, (e - 1) as nat);
        let pc = vstd::arithmetic::power::pow(c as int, (e - 1) as nat);
        assert(b * pb <= c * pc) by (nonlinear_arith)
            requires
                0 <= b <= c,
                0 <= pb <= pc,
        ;
    }
}

/// The number of bits in the multi-precision integer used by the
/// digit-comparison algorithms: enough for every radix up to 36.
pub const BIGINT_BITS: usize = 6000;

/// The limb count corresponding to `BIGINT_BITS`.
pub const BIGINT_LIMBS: usize = BIGINT_BITS / LIMB_BITS;

/// A multi-precision unsigned integer holding all the significant digits of
/// a float, scaled to a common exponent.
pub struct Bigint {
    /// The limbs of the integer, in little-endian order.
    pub data: StackVec<BIGINT_LIMBS>,
}

impl Bigint {
    /// The denoted nonnegative integer.
    pub open spec fn value(&self) -> nat {
        limbs_value(self.data@)
    }

    /// Well-formed and normalized.
    pub open spec fn wf(&self) -> bool {
        self.data.wf() && limbs_normalized(self.data@)
    }

    /// Construct a big integer denoting zero.
    pub fn new() -> (r: Self)
        ensures
            r.wf(),
            r.value() == 0,
            r.data@.len() == 0,
    {
        Bigint { data: StackVec::new() }
    }

    /// Construct a big integer from a 32-bit value.
    pub fn from_u32(value: u32) -> (r: Self)
        ensures
            r.wf(),
            r.value() == value,
    {
        Bigint { data: StackVec::from_u32(value) }
    }

    /// Construct a big integer from a 64-bit value.
    pub fn from_u64(value: u64) -> (r: Self)
        ensures
            r.wf(),
            r.value() == value,
    {
        Bigint { data: StackVec::from_u64(value) }
    }

    /// The denoted value normalized to its top 64 bits, with a truncation
    /// flag for the bits below them.
    pub fn hi64(&self) -> (r: (u64, bool))
        requires
            self.wf(),
        ensures
            ({
                let v = self.value() as int;
                let bl = nat_bit_length(self.value());
                &&& r.0 == (v * pow2(64)) / (pow2(bl) as int)
                &&& (r.1 <==> (v * pow2(64)) % (pow2(bl) as int) != 0)
                &&& (self.value() > 0 ==> r.0 >= pow2(63))
                &&& (self.value() == 0 ==> r == (0u64, false))
            }),
    {
        self.data.hi64()
    }

    /// Multiply by `base^exp`.
    pub fn pow(&mut self, base: u32, exp: u32)
        requires
            old(self).wf(),
            2 <= base <= 36,
            exp <= 64 * BIGINT_LIMBS,
            old(self).value() * pow_nat(base as nat, exp as nat) < pow2(
                (64 * BIGINT_LIMBS) as nat,
            ),
        ensures
            final(self).wf(),
            final(self).value() == old(self).value() * pow_nat(base as nat, exp as nat),
    {
        pow_and_shift::<BIGINT_LIMBS>(&mut self.data, base, exp);
    }

    /// The position of the highest set bit.
    pub fn bit_length(&self) -> (r: u32)
        requires
            self.wf(),
        ensures
            r == nat_bit_length(self.value()),
            self.value() < pow2(r as nat),
            self.value() > 0 ==> pow2((r - 1) as nat) <= self.value(),
            self.value() == 0 <==> r == 0,
    {
        proof {
            if self.value() == 0 {
            } else {
                lemma_limbs_value_lower(self.data@);
                lemma_pow2_pos((64 * (self.data@.len() - 1)) as nat);
            }
        }
        bit_length(self.data.as_slice())
    }
}

/// Multiply a limb vector by `base^exp`, splitting the base into its odd
/// factor, handled by iterated multiplication, and its power-of-two factor,
/// handled by a left shift.
pub fn pow_and_shift<const SIZE: usize>(x: &mut StackVec<SIZE>, base: u32, exp: u32)
    requires
        old(x).wf(),
        limbs_normalized(old(x)@),
        2 <= base <= 36,
        exp <= 0x0100_0000,
        limbs_value(old(x)@) * pow_nat(base as nat, exp as nat) < pow2((64 * SIZE) as nat),
    ensures
        final(x).wf(),
        limbs_normalized(final(x)@),
        limbs_value(final(x)@) == limbs_value(old(x)@) * pow_nat(base as nat, exp as nat),
{
    if x.is_empty() {
        proof {
            assert(limbs_value(x@) == 0);
            lemma_pow_nat(base as nat, exp as nat);
            assert(0int * pow_nat(base as nat, exp as nat) == 0);
        }
        return ;
    }
    let split = split_radix(base);
    let odd = split.0;
    let shift = split.1;
    let ghost v0 = limbs_value(old(x)@) as int;
    let ghost pb = pow_nat(base as nat, exp as nat) as int;
    let ghost po = pow_nat(odd as nat, exp as nat) as int;
    let ghost p2 = pow2(((shift * exp) as nat)) as int;
    proof {
        lemma_pow_nat(base as nat, exp as nat);
        lemma_pow_nat(odd as nat, exp as nat);
        lemma_pow2(shift as nat);
        vstd::arithmetic::power::lemma_pow_multiplies(2, shift as nat, exp as nat);
        lemma_pow2((shift * exp) as nat);
        lemma_pow2_pos((shift * exp) as nat);
        // base^exp factors as odd^exp * 2^(shift*exp).
        if odd == 0 {
            assert(pb == p2);
        } else {
            vstd::arithmetic::power::lemma_pow_distributes(
                odd as int,
                pow2(shift as nat) as int,
                exp as nat,
            );
            assert(pb == po * p2);
        }
        // The shift fits the capacity: the value is at least one, so the
        // power alone is below the capacity bound, and the radix dominates
        // its power-of-two factor.
        lemma_limbs_value_lower(x@);
        lemma_pow2_pos((64 * (x@.len() - 1)) as nat);
        assert(v0 >= 1);
        assert(pb <= v0 * pb) by (nonlinear_arith)
            requires
                v0 >= 1,
                pb >= 0,
        ;
        if odd != 0 {
            assert(pow2(shift as nat) <= base) by (nonlinear_arith)
                requires
                    base == odd * pow2(shift as nat),
                    odd >= 1,
                    pow2(shift as nat) >= 0,
            ;
        }
        lemma_pow_nat(pow2(shift as nat), exp as nat);
        lemma_pow_base_increases(pow2(shift as nat), base as nat, exp as nat);
        vstd::arithmetic::power::lemma_pow_multiplies(2, shift as nat, exp as nat);
        assert(p2 <= pb);
        if shift * exp >= 64 * SIZE {
            if (shift * exp) as nat == (64 * SIZE) as nat {
            } else {
                lemma_pow2_strictly_increases((64 * SIZE) as nat, (shift * exp) as nat);
            }
            assert(false);
        }
        assert(shift * exp < 64 * SIZE);
    }
    if odd != 0 {
        proof {
            assert(v0 * po <= (v0 * po) * p2 && (v0 * po) * p2 == v0 * pb) by (nonlinear_arith)
                requires
                    pb == po * p2,
                    v0 >= 0,
                    po >= 0,
                    p2 >= 1,
            ;
        }
        proof {
            assert(3 <= odd <= 36);
            assert(limbs_value(x@) * pow_nat(odd as nat, exp as nat) < pow2((64 * SIZE) as nat));
        }
        pow(x, odd, exp);
    }
    proof {
        assert(shift <= 5);
        assert((shift as int) * (exp as int) <= 0x0500_0000) by (nonlinear_arith)
            requires
                shift <= 5,
                exp <= 0x0100_0000,
        ;
    }
    if shift != 0 {
        proof {
            if odd != 0 {
                assert((v0 * po) * p2 == v0 * pb) by (nonlinear_arith)
                    requires
                        pb == po * p2,
                ;
            }
        }
        shl(x, (shift as usize) * (exp as usize));
    } else {
        proof {
            lemma2_to64();
            assert(shift * exp == 0) by (nonlinear_arith)
                requires
                    shift == 0,
            ;
            assert((shift * exp) as nat == 0);
            assert(p2 == pow2(0));
            assert(p2 == 1);
            if odd != 0 {
                assert((v0 * po) * 1 == v0 * po && pb == po) by (nonlinear_arith)
                    requires
                        pb == po * p2,
                        p2 == 1,
                ;
            }
        }
    }
}

/// The count of factors of two in a positive integer.
pub open spec fn two_adic(n: nat) -> nat
    decreases n,
{
    if n == 0 || n % 2 == 1 {
        0
    } else {
        1 + two_adic(n / 2)
    }
}

/// The number of bits in the binary-scaled float used by the
/// byte-comparison path: the halfway point over the full exponent range.
pub const BIGFLOAT_BITS: usize = 1200;

/// The limb count corresponding to `BIGFLOAT_BITS`.
pub const BIGFLOAT_LIMBS: usize = BIGFLOAT_BITS / LIMB_BITS;

/// A binary-scaled value `mant * 2^exp` with a bounded multi-precision
/// mantissa, used to hold the halfway point and the radix scale of the
/// byte-comparison algorithm.
pub struct Bigfloat {
    /// The limbs of the mantissa, in little-endian order.
    pub data: StackVec<BIGFLOAT_LIMBS>,
    /// The binary exponent of the mantissa's least bit.
    pub exp: i32,
}

impl Bigfloat {
    /// The denoted mantissa value; the binary exponent scales it separately.
    pub open spec fn value(&self) -> nat {
        limbs_value(self.data@)
    }

    /// Well-formed and normalized.
    pub open spec fn wf(&self) -> bool {
        self.data.wf() && limbs_normalized(self.data@)
    }

    /// A big float denoting zero.
    pub fn new() -> (r: Self)
        ensures
            r.wf(),
            r.value() == 0,
            r.exp == 0,
    {
        Bigfloat { data: StackVec::new(), exp: 0 }
    }

    /// The big float with the significand and exponent of an
    /// extended-precision float.
    pub fn from_float(fp: crate::float::ExtendedFloat80) -> (r: Self)
        ensures
            r.wf(),
            r.value() == fp.mant,
            r.exp == fp.exp,
    {
        Bigfloat { data: StackVec::from_u64(fp.mant), exp: fp.exp }
    }

    /// The big float denoting a 32-bit value, with a zero exponent.
    pub fn from_u32(value: u32) -> (r: Self)
        ensures
            r.wf(),
            r.value() == value,
            r.exp == 0,
    {
        Bigfloat { data: StackVec::from_u32(value), exp: 0 }
    }

    /// The big float denoting a 64-bit value, with a zero exponent.
    pub fn from_u64(value: u64) -> (r: Self)
        ensures
            r.wf(),
            r.value() == value,
            r.exp == 0,
    {
        Bigfloat { data: StackVec::from_u64(value), exp: 0 }
    }

    /// Multiply by `base^n`: the odd factor multiplies the mantissa and the
    /// power-of-two factor raises the exponent, keeping the denoted value.
    pub fn pow(&mut self, base: u32, n: u32)
        requires
            old(self).wf(),
            2 <= base <= 36,
            n <= 64 * BIGFLOAT_LIMBS,
            old(self).value() * pow_nat(odd_part(base as nat), n as nat) < pow2(
                (64 * BIGFLOAT_LIMBS) as nat,
            ),
            old(self).exp + 6 * (n as int) <= 0x1000_0000,
            old(self).exp >= -0x1000_0000,
        ensures
            final(self).wf(),
            final(self).value() == old(self).value() * pow_nat(odd_part(base as nat), n as nat),
            final(self).exp == old(self).exp + two_adic(base as nat) * n,
    {
        let split = split_radix(base);
        let odd = split.0;
        let shift = split.1;
        proof {
            lemma_split_radix_two_adic(base);
            lemma_pow_nat(odd_part(base as nat), n as nat);
            // The executable split agrees with the spec-level valuation.
            if shift != two_adic(base as nat) {
                if shift < two_adic(base as nat) {
                    lemma_pow2_strictly_increases(shift as nat, two_adic(base as nat));
                } else {
                    lemma_pow2_strictly_increases(two_adic(base as nat), shift as nat);
                }
                if odd == 0 {
                    assert(false);
                } else {
                    let o = odd_part(base as nat) as int;
                    let pa = pow2(shift as nat) as int;
                    let pb = pow2(two_adic(base as nat)) as int;
                    assert(o * pa != o * pb) by (nonlinear_arith)
                        requires
                            pa != pb,
                            o >= 1,
                            pa >= 0,
                            pb >= 0,
                    ;
                    assert(false);
                }
            }
            if odd == 0 {
                lemma_pow_nat(1, n as nat);
                vstd::arithmetic::power::lemma1_pow(n as nat);
                assert(old(self).value() * 1 == old(self).value());
            }
        }
        if odd != 0 {
            pow::<BIGFLOAT_LIMBS>(&mut self.data, odd, n);
        }
        if shift != 0 {
            proof {
                assert(shift * n <= 6 * n) by (nonlinear_arith)
                    requires
                        shift <= 6,
                        n >= 0,
                ;
            }
            self.exp = self.exp + ((shift * n) as i32);
        }
    }

    /// Shift the mantissa left by `n` bits, `0 < n < 64`.
    pub fn shl_bits(&mut self, n: usize) -> (r: Option<()>)
        requires
            old(self).wf(),
            0 < n < 64,
            old(self).value() * pow2(n as nat) < pow2((64 * BIGFLOAT_LIMBS) as nat),
        ensures
            final(self).wf(),
            r == Some(()),
            final(self).value() == old(self).value() * pow2(n as nat),
            final(self).exp == old(self).exp,
    {
        shl_bits(&mut self.data, n)
    }

    /// Shift the mantissa left by `n` whole limbs.
    pub fn shl_limbs(&mut self, n: usize) -> (r: Option<()>)
        requires
            old(self).wf(),
            n + old(self).data@.len() <= BIGFLOAT_LIMBS,
        ensures
            final(self).wf(),
            r == Some(()),
            final(self).value() == old(self).value() * pow2((64 * n) as nat),
            final(self).exp == old(self).exp,
    {
        shl_limbs(&mut self.data, n)
    }

    /// Shift the mantissa left by `n` bits.
    pub fn shl(&mut self, n: usize) -> (r: Option<()>)
        requires
            old(self).wf(),
            n <= 64 * BIGFLOAT_LIMBS,
            old(self).value() * pow2(n as nat) < pow2((64 * BIGFLOAT_LIMBS) as nat),
        ensures
            final(self).wf(),
            r == Some(()),
            final(self).value() == old(self).value() * pow2(n as nat),
            final(self).exp == old(self).exp,
    {
        shl(&mut self.data, n)
    }

    /// The number of leading zero bits of the mantissa's top limb.
    pub fn leading_zeros(&self) -> (r: u32)
        ensures
            self.data@.len() == 0 ==> r == 0,
            self.data@.len() > 0 ==> r == vstd::std_specs::bits::u64_leading_zeros(
                self.data@.last(),
            ),
    {
        leading_zeros(self.data.as_slice())
    }
}

/// The odd part and two-adic valuation of a positive integer multiply back
/// to it.
proof fn lemma_odd_part_decomposition(n: nat)
    requires
        n >= 1,
    ensures
        odd_part(n) * pow2(two_adic(n)) == n,
        odd_part(n) >= 1,
    decreases n,
{
    if n % 2 == 1 {
        lemma2_to64();
        assert(odd_part(n) == n);
        assert(two_adic(n) == 0);
        assert(n * 1 == n);
    } else {
        let h = n / 2;
        vstd::arithmetic::div_mod::lemma_fundamental_div_mod(n as int, 2);
        assert(n == 2 * h);
        lemma_odd_part_decomposition(h);
        assert(odd_part(n) == odd_part(h));
        assert(two_adic(n) == 1 + two_adic(h));
        lemma_pow2_unfold(two_adic(n));
        let o = odd_part(h) as int;
        let p = pow2(two_adic(h)) as int;
        assert(o * (2 * p) == 2 * (o * p)) by (nonlinear_arith);
    }
}

/// The executable split's shift equals the two-adic valuation, for a
/// power-of-two radix.
pub proof fn lemma_split_two_adic_pub(radix: u32)
    requires
        2 <= radix <= 36,
    ensures
        odd_part(radix as nat) == 1 ==> pow2(two_adic(radix as nat)) == radix,
        two_adic(radix as nat) <= 5,
        odd_part(radix as nat) != 1 ==> odd_part(radix as nat) * pow2(two_adic(radix as nat))
            == radix,
{
    lemma_split_radix_two_adic(radix);
}

/// The odd part and two-adic valuation of a radix multiply back to it.
proof fn lemma_split_radix_two_adic(radix: u32)
    requires
        2 <= radix <= 36,
    ensures
        odd_part(radix as nat) == 1 ==> pow2(two_adic(radix as nat)) == radix,
        two_adic(radix as nat) <= 5,
        odd_part(radix as nat) != 1 ==> odd_part(radix as nat) * pow2(two_adic(radix as nat))
            == radix,
{
    lemma_odd_part_decomposition(radix as nat);
    lemma2_to64();
    let o = odd_part(radix as nat) as int;
    let ta = two_adic(radix as nat);
    let p = pow2(ta) as int;
    assert(p <= radix) by (nonlinear_arith)
        requires
            o * p == radix,
            o >= 1,
            p >= 0,
    ;
    if ta > 5 {
        if ta > 6 {
            lemma_pow2_strictly_increases(6, ta);
        }
        assert(p >= 64);
        assert(false);
    }
    if o == 1 {
        assert(1 * p == p);
    }
}

} // verus!
