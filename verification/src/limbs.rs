//! The mathematical model of a multi-precision integer: the value denoted by
//! a little-endian sequence of 64-bit limbs, and the lemmas the arithmetic
//! primitives are proved against.

use vstd::prelude::*;

verus! {

use vstd::arithmetic::power2::*;
use vstd::arithmetic::power::pow;
use vstd::arithmetic::mul::*;
use vstd::arithmetic::div_mod::{lemma_small_div_converse, lemma_basic_div};
use vstd::std_specs::bits::{u64_leading_zeros, axiom_u64_leading_zeros};
use vstd::bits::lemma_u64_shr_is_div;
use vstd::calc;

/// The value denoted by a little-endian sequence of limbs:
/// `s[0] + s[1]*2^64 + ... + s[n-1]*2^(64*(n-1))`.
pub open spec fn limbs_value(s: Seq<u64>) -> nat
    decreases s.len(),
{
    if s.len() == 0 {
        0
    } else {
        (limbs_value(s.drop_last()) + s.last() * pow2((64 * (s.len() - 1)) as nat)) as nat
    }
}

/// A sequence of limbs is normalized when it is empty or its top limb is nonzero.
pub open spec fn limbs_normalized(s: Seq<u64>) -> bool {
    s.len() == 0 || s.last() != 0
}

/// Appending a limb adds its value at the next position.
pub proof fn lemma_limbs_value_push(s: Seq<u64>, v: u64)
    ensures
        limbs_value(s.push(v)) == limbs_value(s) + v * pow2((64 * s.len()) as nat),
{
    assert(s.push(v).drop_last() =~= s);
}

/// The value of one more limb of a prefix.
pub proof fn lemma_limbs_value_take_succ(s: Seq<u64>, i: int)
    requires
        0 <= i < s.len(),
    ensures
        limbs_value(s.take(i + 1)) == limbs_value(s.take(i)) + s[i] * pow2((64 * i) as nat),
{
    assert(s.take(i + 1).drop_last() =~= s.take(i));
    assert(s.take(i + 1).last() == s[i]);
}

/// The whole sequence is a prefix of itself.
pub proof fn lemma_limbs_value_take_all(s: Seq<u64>)
    ensures
        limbs_value(s.take(s.len() as int)) == limbs_value(s),
{
    assert(s.take(s.len() as int) =~= s);
}

/// A sequence of `n` limbs denotes a value below `2^(64*n)`.
pub proof fn lemma_limbs_value_bound(s: Seq<u64>)
    ensures
        limbs_value(s) < pow2((64 * s.len()) as nat),
    decreases s.len(),
{
    if s.len() == 0 {
        lemma_pow2_pos(0);
    } else {
        let n = s.len() - 1;
        lemma_limbs_value_bound(s.drop_last());
        lemma_pow2_pos((64 * n) as nat);
        lemma_mul_inequality(s.last() as int, 0xffff_ffff_ffff_ffff, pow2((64 * n) as nat) as int);
        lemma_pow2_adds((64 * n) as nat, 64);
        lemma2_to64();
        assert(0x1_0000_0000_0000_0000 * pow2((64 * n) as nat) == pow2((64 * s.len()) as nat));
        assert(limbs_value(s) as int <= limbs_value(s.drop_last()) + 0xffff_ffff_ffff_ffff * pow2(
            (64 * n) as nat,
        ));
        assert(limbs_value(s.drop_last()) < pow2((64 * n) as nat));
        assert(0xffff_ffff_ffff_ffff * pow2((64 * n) as nat) + pow2((64 * n) as nat)
            == 0x1_0000_0000_0000_0000 * pow2((64 * n) as nat)) by {
            lemma_mul_is_distributive_add_other_way(
                pow2((64 * n) as nat) as int,
                0xffff_ffff_ffff_ffff,
                1,
            );
        }
    }
}

/// A normalized, nonempty sequence denotes at least the weight of its top limb.
pub proof fn lemma_limbs_value_lower(s: Seq<u64>)
    requires
        s.len() > 0,
        s.last() != 0,
    ensures
        limbs_value(s) >= pow2((64 * (s.len() - 1)) as nat),
{
    lemma_pow2_pos((64 * (s.len() - 1)) as nat);
    lemma_mul_ordering(s.last() as int, pow2((64 * (s.len() - 1)) as nat) as int);
}

/// Dropping a zero top limb keeps the value.
pub proof fn lemma_limbs_value_drop_zero(s: Seq<u64>)
    requires
        s.len() > 0,
        s.last() == 0,
    ensures
        limbs_value(s) == limbs_value(s.drop_last()),
{
}

/// The value splits at any index into a low prefix and a weighted high part.
pub proof fn lemma_limbs_value_split(s: Seq<u64>, i: int)
    requires
        0 <= i <= s.len(),
    ensures
        limbs_value(s) == limbs_value(s.take(i)) + pow2((64 * i) as nat) * limbs_value(s.skip(i)),
    decreases s.len() - i,
{
    if i == s.len() {
        lemma_limbs_value_take_all(s);
        assert(s.skip(i) =~= Seq::<u64>::empty());
        assert(limbs_value(s.skip(i)) == 0);
        assert(pow2((64 * i) as nat) * 0 == 0);
    } else {
        let n = s.len() - 1;
        lemma_limbs_value_split(s, i + 1);
        lemma_limbs_value_take_succ(s, i);
        assert(s.skip(i).drop_first() =~= s.skip(i + 1));
        assert(s.skip(i) =~= seq![s[i]].add(s.skip(i + 1)));
        lemma_limbs_value_cons(s[i], s.skip(i + 1));
        let p = pow2((64 * i) as nat) as int;
        let hi = limbs_value(s.skip(i + 1)) as int;
        calc! {
            (==)
            limbs_value(s) as int; {}
            limbs_value(s.take(i + 1)) + pow2((64 * (i + 1)) as nat) * hi; {
                lemma_pow2_adds((64 * i) as nat, 64);
                lemma_mul_is_associative(p, pow2(64) as int, hi);
            }
            limbs_value(s.take(i)) + s[i] * p + p * (pow2(64) * hi); {
                lemma_mul_is_distributive_add(p, s[i] as int, pow2(64) as int * hi);
                lemma_mul_is_commutative(s[i] as int, p);
            }
            limbs_value(s.take(i)) + p * (s[i] + pow2(64) * hi); {}
            limbs_value(s.take(i)) + p * limbs_value(s.skip(i));
        }
    }
}

/// The value of a sequence with one limb in front.
pub proof fn lemma_limbs_value_cons(v: u64, s: Seq<u64>)
    ensures
        limbs_value(seq![v].add(s)) == v + pow2(64) * limbs_value(s),
    decreases s.len(),
{
    let c = seq![v].add(s);
    if s.len() == 0 {
        assert(c =~= seq![v]);
        assert(limbs_value(seq![v].drop_last()) =~= limbs_value(Seq::<u64>::empty()));
        lemma2_to64();
        assert(limbs_value(seq![v]) == v * pow2(0));
        lemma_pow2_unfold(0 + 1);
    } else {
        assert(c.drop_last() =~= seq![v].add(s.drop_last()));
        assert(c.last() == s.last());
        assert(c.len() - 1 == s.len());
        lemma_limbs_value_cons(v, s.drop_last());
        calc! {
            (==)
            limbs_value(c) as int; {}
            limbs_value(seq![v].add(s.drop_last())) + c.last() * pow2((64 * (c.len() - 1)) as nat); {}
            v + pow2(64) * limbs_value(s.drop_last()) + s.last() * pow2((64 * s.len()) as nat); {
                lemma_pow2_adds(64, (64 * (s.len() - 1)) as nat);
                lemma_mul_is_associative(
                    s.last() as int,
                    pow2(64) as int,
                    pow2((64 * (s.len() - 1)) as nat) as int,
                );
                lemma_mul_is_commutative(s.last() as int, pow2(64) as int);
                lemma_mul_is_associative(
                    pow2(64) as int,
                    s.last() as int,
                    pow2((64 * (s.len() - 1)) as nat) as int,
                );
                lemma_mul_is_distributive_add(
                    pow2(64) as int,
                    limbs_value(s.drop_last()) as int,
                    s.last() as int * pow2((64 * (s.len() - 1)) as nat) as int,
                );
            }
            v + pow2(64) * limbs_value(s) as int;
        }
    }
}

/// Replacing one limb shifts the value by the weighted difference.
pub proof fn lemma_limbs_value_update(s: Seq<u64>, i: int, v: u64)
    requires
        0 <= i < s.len(),
    ensures
        limbs_value(s.update(i, v)) + s[i] * pow2((64 * i) as nat) == limbs_value(s) + v * pow2(
            (64 * i) as nat,
        ),
    decreases s.len(),
{
    let t = s.update(i, v);
    if i == s.len() - 1 {
        assert(t.drop_last() =~= s.drop_last());
    } else {
        assert(t.drop_last() =~= s.drop_last().update(i, v));
        assert(t.last() == s.last());
        lemma_limbs_value_update(s.drop_last(), i, v);
    }
}

/// A single limb denotes its own value.
pub proof fn lemma_limbs_value_single(v: u64)
    ensures
        limbs_value(seq![v]) == v,
{
    assert(seq![v].drop_last() =~= Seq::<u64>::empty());
    assert(limbs_value(Seq::<u64>::empty()) == 0);
    assert(limbs_value(seq![v].drop_last()) == 0);
    lemma2_to64();
    assert(limbs_value(seq![v]) == (0 + v * pow2(0)) as nat);
}

/// A sequence of zero limbs denotes zero.
pub proof fn lemma_limbs_value_all_zero(s: Seq<u64>)
    requires
        forall|j: int| 0 <= j < s.len() ==> s[j] == 0,
    ensures
        limbs_value(s) == 0,
    decreases s.len(),
{
    if s.len() > 0 {
        lemma_limbs_value_all_zero(s.drop_last());
    }
}

/// Of two normalized sequences, the longer denotes the larger value.
pub proof fn lemma_limbs_value_shorter_lt(s: Seq<u64>, t: Seq<u64>)
    requires
        s.len() < t.len(),
        limbs_normalized(t),
    ensures
        limbs_value(s) < limbs_value(t),
{
    lemma_limbs_value_bound(s);
    lemma_limbs_value_lower(t);
    if s.len() < t.len() - 1 {
        lemma_pow2_strictly_increases((64 * s.len()) as nat, (64 * (t.len() - 1)) as nat);
    }
}

/// Two sequences of equal length that agree above index `i`, where `s` is
/// smaller: the values are ordered the same way.
pub proof fn lemma_limbs_value_lt_at(s: Seq<u64>, t: Seq<u64>, i: int)
    requires
        s.len() == t.len(),
        0 <= i < s.len(),
        s[i] < t[i],
        forall|j: int| i < j < s.len() ==> s[j] == t[j],
    ensures
        limbs_value(s) < limbs_value(t),
    decreases s.len(),
{
    if i == s.len() - 1 {
        let p = pow2((64 * i) as nat) as int;
        lemma_limbs_value_bound(s.drop_last());
        lemma_limbs_value_split(t, i);
        assert(t.skip(i) =~= seq![t[i]]);
        assert(limbs_value(s) == limbs_value(s.drop_last()) + s[i] * p);
        assert(limbs_value(s) < (s[i] + 1) * p) by {
            lemma_mul_is_distributive_add_other_way(p, s[i] as int, 1);
        }
        assert((s[i] + 1) * p <= t[i] * p) by {
            lemma_mul_inequality(s[i] + 1, t[i] as int, p);
        }
        lemma_limbs_value_single(t[i]);
        assert(limbs_value(t) >= p * limbs_value(t.skip(i)));
        lemma_mul_is_commutative(t[i] as int, p);
    } else {
        lemma_limbs_value_lt_at(s.drop_last(), t.drop_last(), i);
        assert(s.last() == t.last());
    }
}

/// A prefix never denotes more than the whole sequence.
pub proof fn lemma_limbs_value_take_le(s: Seq<u64>, i: int)
    requires
        0 <= i <= s.len(),
    ensures
        limbs_value(s.take(i)) <= limbs_value(s),
{
    lemma_limbs_value_split(s, i);
    lemma_mul_nonnegative(pow2((64 * i) as nat) as int, limbs_value(s.skip(i)) as int);
}

/// The count of leading zero bits of a limb brackets its value between two
/// powers of two.
pub proof fn lemma_u64_leading_zeros_bounds(x: u64)
    ensures
        x == 0 ==> u64_leading_zeros(x) == 64,
        x != 0 ==> u64_leading_zeros(x) <= 63,
        x != 0 ==> pow2((63 - u64_leading_zeros(x)) as nat) <= x,
        x != 0 ==> x < pow2((64 - u64_leading_zeros(x)) as nat),
{
    axiom_u64_leading_zeros(x);
    if x != 0 {
        let lz = u64_leading_zeros(x) as u64;
        // Upper bound: all bits at and above position 64 - lz are zero.
        if lz > 0 {
            let k = (64 - lz) as u64;
            assert(x >> k == 0);
            lemma_u64_shr_is_div(x, k);
            lemma_pow2_pos(k as nat);
            lemma_small_div_converse(x as int, pow2(k as nat) as int);
        } else {
            lemma2_to64();
        }
        // Lower bound: the bit at position 63 - lz is set.
        let k2 = (63 - lz) as u64;
        assert((x >> k2) & 1u64 != 0u64);
        assert(x >> k2 != 0) by {
            assert(0u64 & 1u64 == 0u64) by (bit_vector);
        }
        lemma_u64_shr_is_div(x, k2);
        lemma_pow2_pos(k2 as nat);
        if x < pow2(k2 as nat) {
            lemma_basic_div(x as int, pow2(k2 as nat) as int);
        }
    }
}

/// The number of bits needed to write `v` in binary: the least `b` with
/// `v < 2^b`.
pub open spec fn nat_bit_length(v: nat) -> nat
    decreases v,
{
    if v == 0 {
        0
    } else {
        1 + nat_bit_length(v / 2)
    }
}

/// A positive value lies between the two powers of two its bit length names.
pub proof fn lemma_nat_bit_length_bounds(v: nat)
    requires
        v > 0,
    ensures
        nat_bit_length(v) >= 1,
        pow2((nat_bit_length(v) - 1) as nat) <= v < pow2(nat_bit_length(v)),
    decreases v,
{
    let b = nat_bit_length(v);
    if v == 1 {
        assert(v / 2 == 0);
        assert(nat_bit_length(0) == 0);
        assert(b == 1);
        lemma2_to64();
    } else {
        let h = v / 2;
        let bh = nat_bit_length(h);
        lemma_nat_bit_length_bounds(h);
        vstd::arithmetic::div_mod::lemma_fundamental_div_mod(v as int, 2);
        assert(v == 2 * h + (v as int % 2));
        assert(2 * h <= v < 2 * h + 2);
        lemma_pow2_unfold(bh);
        lemma_pow2_unfold((bh + 1) as nat);
        assert(pow2((b - 1) as nat) == 2 * pow2((bh - 1) as nat));
        assert(pow2((b - 1) as nat) <= 2 * h);
        assert(v <= 2 * (pow2(bh) - 1) + 1);
        assert(pow2(b) == 2 * pow2(bh));
    }
}

/// The bracket between consecutive powers of two determines the bit length.
pub proof fn lemma_nat_bit_length_unique(v: nat, b: nat)
    requires
        b >= 1,
        pow2((b - 1) as nat) <= v < pow2(b),
    ensures
        nat_bit_length(v) == b,
{
    lemma_pow2_pos((b - 1) as nat);
    assert(v > 0);
    lemma_nat_bit_length_bounds(v);
    let bl = nat_bit_length(v);
    if bl < b {
        lemma_pow2_strictly_increases(bl, b);
        if bl < b - 1 {
            lemma_pow2_strictly_increases(bl, (b - 1) as nat);
        }
        assert(false);
    }
    if bl > b {
        lemma_pow2_strictly_increases(b, bl);
        if b < bl - 1 {
            lemma_pow2_strictly_increases(b, (bl - 1) as nat);
        }
        assert(false);
    }
}

/// A sequence denotes zero exactly when every limb is zero.
pub proof fn lemma_limbs_value_zero_iff(s: Seq<u64>)
    ensures
        limbs_value(s) == 0 <==> (forall|j: int| 0 <= j < s.len() ==> s[j] == 0),
    decreases s.len(),
{
    if s.len() > 0 {
        lemma_limbs_value_zero_iff(s.drop_last());
        lemma_pow2_pos((64 * (s.len() - 1)) as nat);
        if s.last() != 0 {
            lemma_limbs_value_lower(s);
        }
        if limbs_value(s) == 0 {
            assert(forall|j: int| 0 <= j < s.len() - 1 ==> s.drop_last()[j] == 0);
            assert(forall|j: int|
                0 <= j < s.len() ==> s[j] == (if j == s.len() - 1 {
                    s.last()
                } else {
                    s.drop_last()[j]
                }));
        } else {
            if forall|j: int| 0 <= j < s.len() ==> s[j] == 0 {
                assert(s.last() == 0);
                assert(forall|j: int| 0 <= j < s.len() - 1 ==> s.drop_last()[j] == 0);
            }
        }
    }
}

/// The odd factor of a positive integer: what remains after dividing out
/// every factor of two.
pub open spec fn odd_part(n: nat) -> nat
    decreases n,
{
    if n == 0 {
        0
    } else if n % 2 == 1 {
        n
    } else {
        odd_part(n / 2)
    }
}

/// The value of a power `b^e`, as the mathematical `pow` on integers.
pub open spec fn pow_nat(b: nat, e: nat) -> nat {
    pow(b as int, e) as nat
}

/// `pow` of a nonnegative base is nonnegative, so `pow_nat` agrees with it.
pub proof fn lemma_pow_nat(b: nat, e: nat)
    ensures
        pow_nat(b, e) == pow(b as int, e),
        b > 0 ==> pow_nat(b, e) > 0,
    decreases e,
{
    if b > 0 {
        vstd::arithmetic::power::lemma_pow_positive(b as int, e);
    } else if e > 0 {
        vstd::arithmetic::power::lemma0_pow(e);
    } else {
        vstd::arithmetic::power::lemma_pow0(b as int);
    }
    if e > 0 {
        lemma_pow_nat(b, (e - 1) as nat);
    }
}

} // verus!
