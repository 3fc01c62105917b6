//! A bounded multi-precision unsigned integer and its arithmetic primitives.
//!
//! The storage is a vector of 64-bit limbs in little-endian order with a
//! fixed capacity; every arithmetic primitive carries a contract over the
//! denoted value (see `limbs_value`) and preserves normalization.

use vstd::prelude::*;

verus! {

use vstd::arithmetic::power2::*;
use vstd::arithmetic::div_mod::*;
use vstd::arithmetic::mul::*;
use crate::limbs::{
    limbs_value, limbs_normalized, lemma_limbs_value_push, lemma_limbs_value_take_succ,
    lemma_limbs_value_bound, lemma_limbs_value_lower, lemma_limbs_value_drop_zero,
    lemma_limbs_value_split, lemma_limbs_value_update, lemma_limbs_value_all_zero,
    lemma_limbs_value_shorter_lt, lemma_limbs_value_lt_at, lemma_limbs_value_single,
    lemma_limbs_value_cons, lemma_limbs_value_zero_iff, lemma_u64_leading_zeros_bounds,
    nat_bit_length, lemma_nat_bit_length_unique,
};
use vstd::std_specs::bits::u64_leading_zeros;

/// A vector of limbs with a fixed capacity of `SIZE`, in little-endian order.
///
/// The denoted value is `limbs_value(v@)`; most operations keep the vector
/// normalized (no zero top limb), which `limbs_normalized(v@)` captures.
pub struct StackVec<const SIZE: usize> {
    pub(crate) data: Vec<u64>,
}

impl<const SIZE: usize> View for StackVec<SIZE> {
    type V = Seq<u64>;

    closed spec fn view(&self) -> Seq<u64> {
        self.data@
    }
}

impl<const SIZE: usize> StackVec<SIZE> {
    /// The capacity bound: the vector never holds more than `SIZE` limbs.
    pub open spec fn wf(&self) -> bool {
        self@.len() <= SIZE
    }

    /// Construct an empty vector.
    pub fn new() -> (r: Self)
        ensures
            r.wf(),
            r@ =~= Seq::<u64>::empty(),
    {
        Self { data: Vec::new() }
    }

    /// Construct a vector holding a copy of the given limbs, or nothing if
    /// they exceed the capacity.
    pub fn try_from(x: &[u64]) -> (r: Option<Self>)
        ensures
            x@.len() <= SIZE ==> (r matches Some(v) && v.wf() && v@ == x@),
            x@.len() > SIZE ==> r is None,
    {
        let mut vec = Self::new();
        match vec.try_extend(x) {
            Some(_) => {
                proof {
                    assert(vec@ =~= x@);
                }
                Some(vec)
            },
            None => None,
        }
    }

    /// The number of limbs stored in the vector.
    pub fn len(&self) -> (r: usize)
        ensures
            r == self@.len(),
    {
        self.data.len()
    }

    /// Whether the vector is empty, that is, denotes zero.
    pub fn is_empty(&self) -> (r: bool)
        ensures
            r <==> self@.len() == 0,
    {
        self.data.len() == 0
    }

    /// The number of limbs the vector can hold.
    pub fn capacity(&self) -> (r: usize)
        ensures
            r == SIZE,
    {
        SIZE
    }

    /// Append one limb, or report that the capacity is exhausted.
    pub fn try_push(&mut self, value: u64) -> (r: Option<()>)
        requires
            old(self).wf(),
        ensures
            final(self).wf(),
            old(self)@.len() < SIZE ==> r == Some(()) && final(self)@ == old(self)@.push(value),
            old(self)@.len() >= SIZE ==> r is None && final(self)@ == old(self)@,
    {
        if self.data.len() < SIZE {
            self.data.push(value);
            Some(())
        } else {
            None
        }
    }

    /// Remove and return the top limb, or nothing if the vector is empty.
    pub fn pop(&mut self) -> (r: Option<u64>)
        requires
            old(self).wf(),
        ensures
            final(self).wf(),
            old(self)@.len() == 0 ==> r is None && final(self)@ == old(self)@,
            old(self)@.len() > 0 ==> r == Some(old(self)@.last()) && final(self)@ == old(
                self,
            )@.drop_last(),
    {
        if self.data.len() == 0 {
            None
        } else {
            let v = self.data.pop().unwrap();
            proof {
                assert(final(self)@ =~= old(self)@.drop_last());
            }
            Some(v)
        }
    }

    /// Append a copy of the given limbs, or report that they do not fit.
    pub fn try_extend(&mut self, slc: &[u64]) -> (r: Option<()>)
        requires
            old(self).wf(),
        ensures
            final(self).wf(),
            old(self)@.len() + slc@.len() <= SIZE ==> r == Some(()) && final(self)@ == old(
                self,
            )@ + slc@,
            old(self)@.len() + slc@.len() > SIZE ==> r is None && final(self)@ == old(self)@,
    {
        if self.data.len() <= SIZE && slc.len() <= SIZE - self.data.len() {
            let mut i: usize = 0;
            while i < slc.len()
                invariant
                    i <= slc@.len(),
                    old(self)@.len() + slc@.len() <= SIZE,
                    self@ == old(self)@ + slc@.take(i as int),
                decreases slc@.len() - i,
            {
                self.data.push(slc[i]);
                i = i + 1;
                proof {
                    assert(self@ =~= old(self)@ + slc@.take(i as int));
                }
            }
            proof {
                assert(self@ =~= old(self)@ + slc@);
            }
            Some(())
        } else {
            None
        }
    }

    /// Resize to `len` limbs, filling new positions with `value`, or report
    /// that `len` exceeds the capacity.
    pub fn try_resize(&mut self, len: usize, value: u64) -> (r: Option<()>)
        requires
            old(self).wf(),
        ensures
            final(self).wf(),
            len > SIZE ==> r is None && final(self)@ == old(self)@,
            len <= SIZE ==> r == Some(()) && final(self)@.len() == len && (forall|j: int|
                0 <= j < len && j < old(self)@.len() ==> final(self)@[j] == old(self)@[j]) && (
            forall|j: int| old(self)@.len() <= j < len ==> final(self)@[j] == value),
    {
        if len > SIZE {
            None
        } else {
            if len <= self.data.len() {
                self.data.truncate(len);
            } else {
                while self.data.len() < len
                    invariant
                        old(self)@.len() <= self@.len() <= len <= SIZE,
                        self@.take(old(self)@.len() as int) == old(self)@,
                        forall|j: int| old(self)@.len() <= j < self@.len() ==> self@[j] == value,
                    decreases len - self@.len(),
                {
                    self.data.push(value);
                    proof {
                        assert(self@.take(old(self)@.len() as int) =~= old(self)@);
                    }
                }
            }
            Some(())
        }
    }

    /// Strip zero top limbs, keeping the denoted value.
    pub fn normalize(&mut self)
        requires
            old(self).wf(),
        ensures
            final(self).wf(),
            limbs_normalized(final(self)@),
            limbs_value(final(self)@) == limbs_value(old(self)@),
            final(self)@ == old(self)@.take(final(self)@.len() as int),
            final(self)@.len() <= old(self)@.len(),
    {
        while self.data.len() > 0 && self.data[self.data.len() - 1] == 0
            invariant
                self@.len() <= old(self)@.len(),
                self@ == old(self)@.take(self@.len() as int),
                limbs_value(self@) == limbs_value(old(self)@),
            decreases self@.len(),
        {
            proof {
                lemma_limbs_value_drop_zero(self@);
            }
            self.data.pop();
            proof {
                assert(self@ =~= old(self)@.take(self@.len() as int));
            }
        }
    }

    /// Whether the vector is normalized: empty, or with a nonzero top limb.
    pub fn is_normalized(&self) -> (r: bool)
        ensures
            r == limbs_normalized(self@),
    {
        self.data.len() == 0 || self.data[self.data.len() - 1] != 0
    }

    /// Construct a vector denoting the given 16-bit value.
    pub fn from_u16(x: u16) -> (r: Self)
        requires
            1 <= SIZE,
        ensures
            r.wf(),
            limbs_normalized(r@),
            limbs_value(r@) == x,
            r@.len() <= 1,
    {
        Self::from_u64(x as u64)
    }

    /// Construct a vector denoting the given 32-bit value.
    pub fn from_u32(x: u32) -> (r: Self)
        requires
            1 <= SIZE,
        ensures
            r.wf(),
            limbs_normalized(r@),
            limbs_value(r@) == x,
            r@.len() <= 1,
    {
        Self::from_u64(x as u64)
    }

    /// Construct a vector denoting the given 64-bit value.
    pub fn from_u64(x: u64) -> (r: Self)
        requires
            1 <= SIZE,
        ensures
            r.wf(),
            limbs_normalized(r@),
            limbs_value(r@) == x,
            r@.len() <= 1,
    {
        let mut vec = Self::new();
        vec.try_push(x);
        proof {
            lemma_limbs_value_push(Seq::<u64>::empty(), x);
            lemma2_to64();
        }
        vec.normalize();
        vec
    }

    /// The denoted value normalized to its top 64 bits, together with a flag
    /// that reports whether any nonzero bit was shifted out below them:
    /// `r.0 == v * 2^64 / 2^bits(v)` and `r.1 <==> v * 2^64 % 2^bits(v) != 0`.
    pub fn hi64(&self) -> (r: (u64, bool))
        requires
            limbs_normalized(self@),
        ensures
            ({
                let v = limbs_value(self@) as int;
                let bl = nat_bit_length(limbs_value(self@));
                &&& r.0 == (v * pow2(64)) / (pow2(bl) as int)
                &&& (r.1 <==> (v * pow2(64)) % (pow2(bl) as int) != 0)
                &&& (limbs_value(self@) > 0 ==> r.0 >= pow2(63))
                &&& (limbs_value(self@) == 0 ==> r == (0u64, false))
            }),
    {
        let len = self.data.len();
        if len == 0 {
            proof {
                lemma2_to64();
                assert(limbs_value(self@) == 0);
                lemma_div_of0(1);
                lemma_mod_self_0(1);
                assert(0int % 1int == 0);
            }
            (0, false)
        } else if len == 1 {
            let x0 = self.data[0];
            proof {
                assert(self@ =~= seq![x0]);
                lemma_limbs_value_single(x0);
                lemma_u64_leading_zeros_bounds(x0);
                let lz = u64_leading_zeros(x0) as nat;
                lemma_nat_bit_length_unique(x0 as nat, (64 - lz) as nat);
                let bl = (64 - lz) as nat;
                lemma_pow2_adds(lz, bl);
                lemma_mul_is_associative(x0 as int, pow2(lz) as int, pow2(bl) as int);
                lemma_pow2_pos(bl);
                lemma_fundamental_div_mod_converse(
                    (x0 as int) * (pow2(64) as int),
                    pow2(bl) as int,
                    (x0 * pow2(lz)) as int,
                    0,
                );
            }
            u64_to_hi64_1(x0)
        } else {
            let top = self.data[len - 1];
            let second = self.data[len - 2];
            proof {
                assert(self@.last() == top);
            }
            let r2 = u64_to_hi64_2(top, second);
            let low_nonzero = nonzero(self.data.as_slice(), 2);
            proof {
                lemma2_to64();
                let s = self@;
                let low = limbs_value(s.take(len - 2)) as int;
                let t_val: int = top * pow2(64) + second;
                let bp = pow2((64 * (len - 2)) as nat) as int;
                let lz = u64_leading_zeros(top) as nat;
                let rs = (64 - lz) as nat;
                // The value splits into the top two limbs over a low part.
                lemma_limbs_value_split(s, len - 2);
                assert(s.skip(len - 2) =~= seq![second].add(seq![top]));
                lemma_limbs_value_cons(second, seq![top]);
                lemma_limbs_value_single(top);
                lemma_u64_leading_zeros_bounds(top);
                lemma_limbs_value_bound(s.take(len - 2));
                let v = limbs_value(s) as int;
                assert(v == low + bp * (second + pow2(64) * top));
                assert(v == low + t_val * bp) by (nonlinear_arith)
                    requires
                        v == low + bp * (second + pow2(64) * top),
                        t_val == top * pow2(64) + second,
                ;
                // The bit length of the value.
                let bl = (64 * (len - 2) + 64 + rs) as nat;
                lemma_pow2_adds(rs, 64);
                lemma_pow2_adds((rs + 64) as nat, (64 * (len - 2)) as nat);
                lemma_pow2_adds((rs + 63) as nat, (64 * (len - 2)) as nat);
                lemma_pow2_adds((63 - lz) as nat, 64);
                lemma_pow2_pos((64 * (len - 2)) as nat);
                lemma_pow2_pos(rs);
                lemma_pow2_pos(bl);
                assert(t_val < pow2((rs + 64) as nat)) by (nonlinear_arith)
                    requires
                        t_val == top * pow2(64) + second,
                        top < pow2(rs),
                        second < pow2(64),
                        pow2((rs + 64) as nat) == pow2(rs) * pow2(64),
                ;
                assert(t_val >= pow2((rs + 63) as nat)) by (nonlinear_arith)
                    requires
                        t_val == top * pow2(64) + second,
                        top >= pow2((63 - lz) as nat),
                        second >= 0,
                        pow2((rs + 63) as nat) == pow2((63 - lz) as nat) * pow2(64),
                        rs + 63 == (63 - lz) + 64,
                ;
                assert(pow2((bl - 1) as nat) <= v < pow2(bl)) by (nonlinear_arith)
                    requires
                        v == low + t_val * bp,
                        0 <= low < bp,
                        pow2((rs + 63) as nat) <= t_val < pow2((rs + 64) as nat),
                        pow2(bl) == pow2((rs + 64) as nat) * bp,
                        pow2((bl - 1) as nat) == pow2((rs + 63) as nat) * bp,
                        bp > 0,
                ;
                lemma_pow2_pos((bl - 1) as nat);
                lemma_nat_bit_length_unique(limbs_value(s), bl);
                // The reported pair is the quotient and a nonzero-remainder
                // test of `v * 2^64` by `2^bl`.
                lemma_fundamental_div_mod(t_val, pow2(rs) as int);
                lemma_mod_division_less_than_divisor(t_val, pow2(rs) as int);
                lemma_div_pos_is_pos(t_val, pow2(rs) as int);
                let tq = t_val / (pow2(rs) as int);
                let tr = t_val % (pow2(rs) as int);
                lemma_mul_is_commutative(pow2(rs) as int, tq);
                assert(t_val == tq * (pow2(rs) as int) + tr);
                let rem: int = tr * bp * pow2(64) + low * pow2(64);
                lemma2_to64();
                assert(v * pow2(64) == tq * pow2(bl) + rem) by (nonlinear_arith)
                    requires
                        v == low + t_val * bp,
                        t_val == tq * pow2(rs) + tr,
                        rem == tr * bp * pow2(64) + low * pow2(64),
                        pow2(bl) == pow2(rs) * pow2(64) * bp,
                ;
                assert(0 <= rem < pow2(bl)) by (nonlinear_arith)
                    requires
                        rem == tr * bp * pow2(64) + low * pow2(64),
                        0 <= tr < pow2(rs),
                        0 <= low < bp,
                        bp > 0,
                        pow2(64) > 0,
                        pow2(bl) == pow2(rs) * pow2(64) * bp,
                ;
                lemma_fundamental_div_mod_converse(
                    v * pow2(64) as int,
                    pow2(bl) as int,
                    tq,
                    rem,
                );
                assert(rem != 0 <==> (tr != 0 || low != 0)) by (nonlinear_arith)
                    requires
                        rem == tr * bp * pow2(64) + low * pow2(64),
                        0 <= tr,
                        0 <= low,
                        bp > 0,
                        pow2(64) > 0,
                ;
                assert(low_nonzero <==> low != 0);
            }
            (r2.0, r2.1 || low_nonzero)
        }
    }

    /// Read the limb at a position.
    pub(crate) fn get_limb(&self, i: usize) -> (r: u64)
        requires
            i < self@.len(),
        ensures
            r == self@[i as int],
    {
        self.data[i]
    }

    /// Replace the limb at a position.
    pub(crate) fn set_limb(&mut self, i: usize, v: u64)
        requires
            old(self).wf(),
            i < old(self)@.len(),
        ensures
            final(self).wf(),
            final(self)@ == old(self)@.update(i as int, v),
    {
        self.data.set(i, v);
    }

    /// The stored limbs as a slice, least-significant first.
    pub fn as_slice(&self) -> (r: &[u64])
        ensures
            r@ == self@,
    {
        self.data.as_slice()
    }

    /// A view of the limbs from the most-significant end.
    pub fn rview(&self) -> (r: ReverseView<u64>)
        ensures
            r.inner@ == self@,
    {
        ReverseView { inner: self.data.as_slice() }
    }
}

/// An immutable view of a sequence indexed from its most-significant end.
pub struct ReverseView<'a, T> {
    pub inner: &'a [T],
}

impl<'a, T> ReverseView<'a, T> {
    /// The element `index` places from the end, if there is one.
    pub fn get(&self, index: usize) -> (r: Option<&T>)
        ensures
            index < self.inner@.len() ==> (r matches Some(v) && *v == self.inner@[self.inner@.len()
                - 1 - index]),
            index >= self.inner@.len() ==> r is None,
    {
        let len = self.inner.len();
        if index < len {
            Some(&self.inner[len - 1 - index])
        } else {
            None
        }
    }
}

/// One digit of the multi-precision integer: a 64-bit machine word.
pub type Limb = u64;

/// The double-width type used for multiply and divide intermediates.
pub type Wide = u128;

/// The number of bits in a limb.
pub const LIMB_BITS: usize = 64;

/// Add two limbs, returning the truncated sum and whether it carried.
pub fn scalar_add(x: Limb, y: Limb) -> (r: (Limb, bool))
    ensures
        r.0 + (if r.1 {
            pow2(64) as int
        } else {
            0int
        }) == x + y,
{
    proof {
        lemma2_to64();
    }
    let sum = x.wrapping_add(y);
    proof {
        if x + y < 0x1_0000_0000_0000_0000 {
            assert(sum == x + y) by {
                lemma_small_mod((x + y) as nat, 0x1_0000_0000_0000_0000);
            }
        } else {
            assert(sum == x + y - 0x1_0000_0000_0000_0000) by {
                lemma_mod_sub_multiples_vanish((x + y) as int, 0x1_0000_0000_0000_0000);
                lemma_small_mod((x + y - 0x1_0000_0000_0000_0000) as nat, 0x1_0000_0000_0000_0000);
            }
        }
    }
    (sum, sum < x)
}

/// Subtract two limbs, returning the truncated difference and whether it borrowed.
pub fn scalar_sub(x: Limb, y: Limb) -> (r: (Limb, bool))
    ensures
        r.0 == x - y + (if r.1 {
            pow2(64) as int
        } else {
            0int
        }),
        r.1 <==> x < y,
{
    proof {
        lemma2_to64();
    }
    let diff = x.wrapping_sub(y);
    proof {
        if x >= y {
            assert(diff == x - y) by {
                lemma_small_mod((x - y) as nat, 0x1_0000_0000_0000_0000);
            }
        } else {
            assert(diff == x - y + 0x1_0000_0000_0000_0000) by {
                lemma_mod_add_multiples_vanish((x - y) as int, 0x1_0000_0000_0000_0000);
                lemma_small_mod((x - y + 0x1_0000_0000_0000_0000) as nat, 0x1_0000_0000_0000_0000);
            }
        }
    }
    (diff, x < y)
}

/// Multiply two limbs and add a carry, returning the low and high halves:
/// `r.0 + r.1 * 2^64 == x * y + carry`.
pub fn scalar_mul(x: Limb, y: Limb, carry: Limb) -> (r: (Limb, Limb))
    ensures
        r.0 + r.1 * pow2(64) == x * y + carry,
{
    proof {
        lemma2_to64();
        lemma_mul_upper_bound(x as int, 0xffff_ffff_ffff_ffff, y as int, 0xffff_ffff_ffff_ffff);
    }
    let z: Wide = (x as Wide) * (y as Wide) + (carry as Wide);
    let lo = (z % 0x1_0000_0000_0000_0000) as Limb;
    let hi = (z / 0x1_0000_0000_0000_0000) as Limb;
    proof {
        lemma_fundamental_div_mod(z as int, 0x1_0000_0000_0000_0000);
        lemma_mul_is_commutative(
            0x1_0000_0000_0000_0000,
            (z as int) / 0x1_0000_0000_0000_0000,
        );
    }
    (lo, hi)
}

/// Divide the two-limb value `x + rem * 2^64` by `y`, returning the quotient
/// and remainder.  The incoming remainder must be below the divisor so that
/// the quotient fits in one limb.
pub fn scalar_div(x: Limb, y: Limb, rem: Limb) -> (r: (Limb, Limb))
    requires
        y != 0,
        rem < y,
    ensures
        r.0 * y + r.1 == x + rem * pow2(64),
        r.1 < y,
        r.0 == (x + rem * pow2(64)) as int / y as int,
        r.1 == (x + rem * pow2(64)) as int % y as int,
{
    proof {
        lemma2_to64();
        lemma_mul_upper_bound(rem as int, y - 1, 0x1_0000_0000_0000_0000, 0x1_0000_0000_0000_0000);
    }
    let dividend: Wide = (x as Wide) | ((rem as Wide) << 64);
    proof {
        assert(dividend == x + rem * 0x1_0000_0000_0000_0000) by (bit_vector)
            requires
                dividend == (x as Wide) | ((rem as Wide) << 64u64),
        ;
        assert(dividend < y * 0x1_0000_0000_0000_0000) by {
            lemma_mul_is_distributive_sub_other_way(
                0x1_0000_0000_0000_0000,
                y as int,
                1int,
            );
        }
        assert((dividend as int) / (y as int) < 0x1_0000_0000_0000_0000) by {
            lemma_multiply_divide_lt(dividend as int, y as int, 0x1_0000_0000_0000_0000);
        }
        lemma_mod_division_less_than_divisor(dividend as int, y as int);
        lemma_div_pos_is_pos(dividend as int, y as int);
    }
    let q = (dividend / (y as Wide)) as Limb;
    let r = (dividend % (y as Wide)) as Limb;
    proof {
        lemma_fundamental_div_mod(dividend as int, y as int);
        lemma_mul_is_commutative(y as int, dividend as int / y as int);
    }
    (q, r)
}

/// Add `y * 2^(64*start)` into the big integer, propagating the carry and
/// growing the vector if the carry escapes the top limb.
pub fn small_add_from<const SIZE: usize>(x: &mut StackVec<SIZE>, y: Limb, start: usize)
    requires
        old(x).wf(),
        start <= old(x)@.len(),
        limbs_value(old(x)@) + y * pow2((64 * start) as nat) < pow2((64 * SIZE) as nat),
    ensures
        final(x).wf(),
        limbs_value(final(x)@) == limbs_value(old(x)@) + y * pow2((64 * start) as nat),
        limbs_normalized(old(x)@) ==> limbs_normalized(final(x)@),
        old(x)@.len() <= final(x)@.len() <= old(x)@.len() + 1,
        final(x)@.len() == old(x)@.len() + 1 ==> final(x)@.last() != 0,
{
    let ghost total = limbs_value(old(x)@) + y * pow2((64 * start) as nat);
    proof {
        lemma_pow2_pos((64 * start) as nat);
        vstd::arithmetic::mul::lemma_mul_nonnegative(y as int, pow2((64 * start) as nat) as int);
    }
    let mut index: usize = start;
    let mut carry: Limb = y;
    while carry != 0 && index < x.len()
        invariant
            x.wf(),
            start <= index <= x@.len(),
            x@.len() == old(x)@.len(),
            limbs_value(x@) + carry * pow2((64 * index) as nat) == total,
            total < pow2((64 * SIZE) as nat),
            forall|j: int| index <= j < x@.len() ==> x@[j] == old(x)@[j],
        decreases x@.len() - index,
    {
        let xi = x.data[index];
        let res = scalar_add(xi, carry);
        let ghost prev = x@;
        x.data.set(index, res.0);
        proof {
            let p = pow2((64 * index) as nat) as int;
            let p1 = pow2((64 * (index + 1)) as nat) as int;
            let q = pow2(64) as int;
            let cnew: int = if res.1 {
                1int
            } else {
                0int
            };
            lemma_limbs_value_update(prev, index as int, res.0);
            lemma_pow2_adds((64 * index) as nat, 64);
            let va = limbs_value(x@) as int;
            let vp = limbs_value(prev) as int;
            assert(va + cnew * p1 == vp + carry * p) by (nonlinear_arith)
                requires
                    va + xi * p == vp + res.0 * p,
                    res.0 + cnew * q == xi + carry,
                    p1 == p * q,
            ;
        }
        carry = if res.1 {
            1
        } else {
            0
        };
        index = index + 1;
    }
    if carry != 0 {
        proof {
            lemma_limbs_value_bound(x@);
            vstd::arithmetic::mul::lemma_mul_increases(
                carry as int,
                pow2((64 * x@.len()) as nat) as int,
            );
            if x@.len() > SIZE {
                lemma_pow2_strictly_increases((64 * SIZE) as nat, (64 * x@.len()) as nat);
            }
            assert(x@.len() < SIZE);
        }
        let ghost prev = x@;
        x.try_push(carry);
        proof {
            lemma_limbs_value_push(prev, carry);
        }
    }
    proof {
        if x@.len() == old(x)@.len() && limbs_normalized(old(x)@) && old(x)@.len() > 0 {
            lemma_limbs_value_lower(old(x)@);
            if x@.last() == 0 {
                lemma_limbs_value_drop_zero(x@);
                lemma_limbs_value_bound(x@.drop_last());
                assert(false);
            }
        }
    }
}

/// Add a small value to the big integer.
pub fn small_add<const SIZE: usize>(x: &mut StackVec<SIZE>, y: Limb)
    requires
        old(x).wf(),
        limbs_value(old(x)@) + y < pow2((64 * SIZE) as nat),
    ensures
        final(x).wf(),
        limbs_value(final(x)@) == limbs_value(old(x)@) + y,
        limbs_normalized(old(x)@) ==> limbs_normalized(final(x)@),
        old(x)@.len() <= final(x)@.len() <= old(x)@.len() + 1,
{
    proof {
        lemma2_to64();
        assert(y * pow2(0) == y);
    }
    small_add_from(x, y, 0);
}

/// Subtract `y * 2^(64*start)` from the big integer, which must be at least
/// that large, and renormalize.  Net underflow (which would wrap the limbs)
/// is excluded by precondition; every caller subtracts a borrow it has
/// already accounted for.
pub fn small_sub_from<const SIZE: usize>(x: &mut StackVec<SIZE>, y: Limb, start: usize)
    requires
        old(x).wf(),
        start <= old(x)@.len(),
        y * pow2((64 * start) as nat) <= limbs_value(old(x)@),
    ensures
        final(x).wf(),
        limbs_normalized(final(x)@),
        limbs_value(final(x)@) == limbs_value(old(x)@) - y * pow2((64 * start) as nat),
        final(x)@.len() <= old(x)@.len(),
{
    let ghost total = limbs_value(old(x)@) - y * pow2((64 * start) as nat);
    let mut index: usize = start;
    let mut carry: Limb = y;
    while carry != 0 && index < x.len()
        invariant
            x.wf(),
            start <= index <= x@.len(),
            x@.len() == old(x)@.len(),
            limbs_value(x@) == total + carry * pow2((64 * index) as nat),
            total >= 0,
            index > start ==> carry <= 1,
        decreases x@.len() - index,
    {
        let xi = x.data[index];
        let res = scalar_sub(xi, carry);
        let ghost prev = x@;
        x.data.set(index, res.0);
        proof {
            let p = pow2((64 * index) as nat) as int;
            let p1 = pow2((64 * (index + 1)) as nat) as int;
            let q = pow2(64) as int;
            let cnew: int = if res.1 {
                1int
            } else {
                0int
            };
            lemma_limbs_value_update(prev, index as int, res.0);
            lemma_pow2_adds((64 * index) as nat, 64);
            let va = limbs_value(x@) as int;
            let vp = limbs_value(prev) as int;
            assert(va == total + cnew * p1) by (nonlinear_arith)
                requires
                    va + xi * p == vp + res.0 * p,
                    vp == total + carry * p,
                    res.0 + carry == xi + cnew * q,
                    p1 == p * q,
            ;
        }
        carry = if res.1 {
            1
        } else {
            0
        };
        index = index + 1;
    }
    proof {
        if carry != 0 {
            lemma_limbs_value_bound(x@);
            vstd::arithmetic::mul::lemma_mul_increases(
                carry as int,
                pow2((64 * index) as nat) as nat as int,
            );
            assert(false);
        }
    }
    x.normalize();
}

/// Subtract a small value from the big integer, which must be at least as
/// large; underflow is excluded by precondition rather than wrapping.
pub fn small_sub<const SIZE: usize>(x: &mut StackVec<SIZE>, y: Limb)
    requires
        old(x).wf(),
        y <= limbs_value(old(x)@),
    ensures
        final(x).wf(),
        limbs_normalized(final(x)@),
        limbs_value(final(x)@) == limbs_value(old(x)@) - y,
        final(x)@.len() <= old(x)@.len(),
{
    proof {
        lemma2_to64();
        assert(y * pow2(0) == y);
    }
    small_sub_from(x, y, 0);
}

/// Multiply the big integer by a small value, in place.
pub fn small_mul<const SIZE: usize>(x: &mut StackVec<SIZE>, y: Limb)
    requires
        old(x).wf(),
        limbs_value(old(x)@) * y < pow2((64 * SIZE) as nat),
    ensures
        final(x).wf(),
        limbs_value(final(x)@) == limbs_value(old(x)@) * y,
        limbs_normalized(old(x)@) && y != 0 ==> limbs_normalized(final(x)@),
        old(x)@.len() <= final(x)@.len() <= old(x)@.len() + 1,
{
    let ghost total = limbs_value(old(x)@) * y;
    let len = x.len();
    let mut i: usize = 0;
    let mut carry: Limb = 0;
    proof {
        assert(x@.take(0) =~= Seq::<u64>::empty());
        assert(old(x)@.take(0) =~= Seq::<u64>::empty());
        assert(limbs_value(Seq::<u64>::empty()) == 0);
        assert(limbs_value(old(x)@.take(0)) * y == 0);
    }
    while i < len
        invariant
            x.wf(),
            i <= len == x@.len() == old(x)@.len(),
            limbs_value(x@.take(i as int)) + carry * pow2((64 * i) as nat) == limbs_value(
                old(x)@.take(i as int),
            ) * y,
            forall|j: int| i <= j < x@.len() ==> x@[j] == old(x)@[j],
        decreases len - i,
    {
        let xi = x.data[i];
        let res = scalar_mul(xi, y, carry);
        let ghost prev = x@;
        x.data.set(i, res.0);
        proof {
            let p = pow2((64 * i) as nat) as int;
            let p1 = pow2((64 * (i + 1)) as nat) as int;
            let q = pow2(64) as int;
            assert(x@.take(i as int) =~= prev.take(i as int));
            lemma_limbs_value_take_succ(x@, i as int);
            lemma_limbs_value_take_succ(old(x)@, i as int);
            lemma_pow2_adds((64 * i) as nat, 64);
            assert(xi == old(x)@[i as int]);
            let va = limbs_value(x@.take(i as int)) as int;
            let va1 = limbs_value(x@.take(i + 1)) as int;
            let vo = limbs_value(old(x)@.take(i as int)) as int;
            let vo1 = limbs_value(old(x)@.take(i + 1)) as int;
            assert(va1 + res.1 * p1 == vo1 * y) by (nonlinear_arith)
                requires
                    va1 == va + res.0 * p,
                    va + carry * p == vo * y,
                    vo1 == vo + xi * p,
                    res.0 + res.1 * q == xi * y + carry,
                    p1 == p * q,
            ;
        }
        carry = res.1;
        i = i + 1;
    }
    proof {
        assert(x@.take(len as int) =~= x@);
        assert(old(x)@.take(len as int) =~= old(x)@);
    }
    if carry != 0 {
        proof {
            lemma_limbs_value_bound(x@);
            vstd::arithmetic::mul::lemma_mul_increases(
                carry as int,
                pow2((64 * x@.len()) as nat) as int,
            );
            if x@.len() > SIZE {
                lemma_pow2_strictly_increases((64 * SIZE) as nat, (64 * x@.len()) as nat);
            }
            assert(x@.len() < SIZE);
        }
        let ghost prev = x@;
        x.try_push(carry);
        proof {
            lemma_limbs_value_push(prev, carry);
        }
    }
    proof {
        if x@.len() == old(x)@.len() && limbs_normalized(old(x)@) && old(x)@.len() > 0 && y != 0 {
            assert(limbs_value(x@) == limbs_value(old(x)@) * y);
            lemma_limbs_value_lower(old(x)@);
            assert(limbs_value(old(x)@) <= y * limbs_value(old(x)@)) by {
                vstd::arithmetic::mul::lemma_mul_inequality(
                    1,
                    y as int,
                    limbs_value(old(x)@) as int,
                );
            }
            assert(y * limbs_value(old(x)@) == limbs_value(old(x)@) * y) by {
                lemma_mul_is_commutative(y as int, limbs_value(old(x)@) as int);
            }
            if x@.last() == 0 {
                lemma_limbs_value_drop_zero(x@);
                lemma_limbs_value_bound(x@.drop_last());
                assert(limbs_value(x@) < pow2((64 * (x@.len() - 1)) as nat));
                assert(limbs_value(old(x)@) >= pow2((64 * (old(x)@.len() - 1)) as nat));
                assert(false);
            }
        }
    }
}

/// Add a big integer into this one, its limbs aligned `start` positions up,
/// growing the vector as needed.
pub fn large_add_from<const SIZE: usize>(x: &mut StackVec<SIZE>, y: &[u64], start: usize)
    requires
        old(x).wf(),
        y@.len() + start <= SIZE,
        limbs_value(old(x)@) + limbs_value(y@) * pow2((64 * start) as nat) < pow2(
            (64 * SIZE) as nat,
        ),
    ensures
        final(x).wf(),
        limbs_value(final(x)@) == limbs_value(old(x)@) + limbs_value(y@) * pow2(
            (64 * start) as nat,
        ),
        limbs_normalized(old(x)@) && limbs_normalized(y@) ==> limbs_normalized(final(x)@),
        final(x)@.len() >= old(x)@.len(),
        old(x)@.len() >= start + y@.len() ==> final(x)@.len() <= old(x)@.len() + 1,
        old(x)@.len() <= start + y@.len() ==> final(x)@.len() <= start + y@.len() + 1,
{
    let ghost ps = pow2((64 * start) as nat);
    let ghost total = limbs_value(old(x)@) + limbs_value(y@) * ps;
    proof {
        lemma_pow2_pos((64 * start) as nat);
        lemma_mul_nonnegative(limbs_value(y@) as int, ps as int);
    }
    let xlen = x.len();
    if y.len() > 0 && (start > xlen || y.len() > xlen - start) {
        x.try_resize(y.len() + start, 0);
        proof {
            let ol = old(x)@.len() as int;
            lemma_limbs_value_split(x@, ol);
            assert(x@.take(ol) =~= old(x)@);
            assert(forall|j: int| 0 <= j < x@.skip(ol).len() ==> x@.skip(ol)[j] == 0);
            lemma_limbs_value_all_zero(x@.skip(ol));
            assert(limbs_value(x@) == limbs_value(old(x)@));
        }
    }
    let ghost base = x@;
    let ghost blen = x@.len();
    let mut carry = false;
    let mut index: usize = 0;
    proof {
        assert(y@.take(0) =~= Seq::<u64>::empty());
        assert(limbs_value(Seq::<u64>::empty()) == 0);
    }
    while index < y.len()
        invariant
            x.wf(),
            index <= y@.len(),
            y@.len() > 0 ==> start + y@.len() <= x@.len(),
            y@.len() == 0 ==> !carry,
            x@.len() == blen,
            ps == pow2((64 * start) as nat),
            limbs_value(x@) + (if carry {
                1int
            } else {
                0int
            }) * pow2((64 * (start + index)) as nat) == limbs_value(base) + limbs_value(
                y@.take(index as int),
            ) * ps,
            forall|j: int| start + index <= j < x@.len() ==> x@[j] == base[j],
        decreases y@.len() - index,
    {
        let xi = x.data[start + index];
        let yi = y[index];
        let cin_limb: Limb = if carry {
            1
        } else {
            0
        };
        let res = scalar_add(xi, yi);
        let res2 = scalar_add(res.0, cin_limb);
        let val = res2.0;
        let tmp = res.1 || res2.1;
        let ghost prev = x@;
        let ghost cin: int = cin_limb as int;
        let ghost cout: int = if tmp {
            1int
        } else {
            0int
        };
        x.data.set(start + index, val);
        proof {
            let pos = (start + index) as int;
            let p = pow2((64 * pos) as nat) as int;
            let p1 = pow2((64 * (pos + 1)) as nat) as int;
            let pi = pow2((64 * index) as nat) as int;
            let q = pow2(64) as int;
            lemma_limbs_value_update(prev, pos, val);
            lemma_pow2_adds((64 * pos) as nat, 64);
            lemma_pow2_adds((64 * start) as nat, (64 * index) as nat);
            lemma_limbs_value_take_succ(y@, index as int);
            // Only one of the two partial adds can carry.
            lemma2_to64();
            assert(!(res.1 && res2.1));
            assert(val + cout * q == xi + yi + cin);
            let va = limbs_value(x@) as int;
            let vp = limbs_value(prev) as int;
            let vb = limbs_value(base) as int;
            let vy = limbs_value(y@.take(index as int)) as int;
            let vy1 = limbs_value(y@.take(index + 1)) as int;
            assert(va + cout * p1 == vb + vy1 * (ps as int)) by (nonlinear_arith)
                requires
                    va + xi * p == vp + val * p,
                    vp + cin * p == vb + vy * (ps as int),
                    val + cout * q == xi + yi + cin,
                    vy1 == vy + yi * pi,
                    p1 == p * q,
                    p == (ps as int) * pi,
            ;
        }
        carry = tmp;
        index = index + 1;
    }
    proof {
        assert(y@.take(y@.len() as int) =~= y@);
    }
    if carry {
        proof {
            lemma_pow2_adds((64 * start) as nat, (64 * y@.len()) as nat);
            assert(1int * pow2((64 * (start + y@.len())) as nat) == pow2(
                (64 * (start + y@.len())) as nat,
            ));
        }
        small_add_from(x, 1, start + y.len());
    }
    proof {
        // Normalization from the value: the final top limb cannot be zero
        // when either input reaches the final length.
        if limbs_normalized(old(x)@) && limbs_normalized(y@) {
            let flen = x@.len();
            if flen > 0 && x@.last() == 0 {
                lemma_limbs_value_drop_zero(x@);
                lemma_limbs_value_bound(x@.drop_last());
                // The final length is `blen`, since a push appends a nonzero
                // limb.
                assert(flen == blen);
                if blen == old(x)@.len() {
                    lemma_limbs_value_lower(old(x)@);
                } else {
                    assert(blen == start + y@.len());
                    assert(y@.len() > 0);
                    lemma_limbs_value_lower(y@);
                    lemma_pow2_adds((64 * (y@.len() - 1)) as nat, (64 * start) as nat);
                    assert(pow2((64 * (y@.len() - 1)) as nat) * (ps as int) <= limbs_value(y@) * (
                    ps as int)) by {
                        lemma_mul_inequality(
                            pow2((64 * (y@.len() - 1)) as nat) as int,
                            limbs_value(y@) as int,
                            ps as int,
                        );
                    }
                }
                assert(false);
            }
        }
    }
}

/// Add a big integer into this one.
pub fn large_add<const SIZE: usize>(x: &mut StackVec<SIZE>, y: &[u64])
    requires
        old(x).wf(),
        y@.len() <= SIZE,
        limbs_value(old(x)@) + limbs_value(y@) < pow2((64 * SIZE) as nat),
    ensures
        final(x).wf(),
        limbs_value(final(x)@) == limbs_value(old(x)@) + limbs_value(y@),
        limbs_normalized(old(x)@) && limbs_normalized(y@) ==> limbs_normalized(final(x)@),
        final(x)@.len() >= old(x)@.len(),
        old(x)@.len() >= y@.len() ==> final(x)@.len() <= old(x)@.len() + 1,
        old(x)@.len() <= y@.len() ==> final(x)@.len() <= y@.len() + 1,
{
    proof {
        lemma2_to64();
        assert(limbs_value(y@) * pow2(0) == limbs_value(y@) * 1);
    }
    large_add_from(x, y, 0);
}

/// Subtract a smaller big integer from this one; if the subtrahend is in
/// fact larger, the result is zero.
pub fn large_sub<const SIZE: usize>(x: &mut StackVec<SIZE>, y: &[u64])
    requires
        old(x).wf(),
        limbs_normalized(old(x)@),
        limbs_normalized(y@),
    ensures
        final(x).wf(),
        limbs_normalized(final(x)@),
        limbs_value(old(x)@) >= limbs_value(y@) ==> limbs_value(final(x)@) == limbs_value(
            old(x)@,
        ) - limbs_value(y@),
        limbs_value(old(x)@) < limbs_value(y@) ==> limbs_value(final(x)@) == 0,
        final(x)@.len() <= old(x)@.len(),
{
    let xlen = x.len();
    let ylen = y.len();
    if xlen < ylen {
        proof {
            lemma_limbs_value_shorter_lt(old(x)@, y@);
        }
        self_clear(x);
        return ;
    }
    let mut carry = false;
    let mut index: usize = 0;
    proof {
        assert(y@.take(0) =~= Seq::<u64>::empty());
        assert(limbs_value(Seq::<u64>::empty()) == 0);
    }
    while index < ylen
        invariant
            x.wf(),
            index <= ylen == y@.len(),
            ylen <= x@.len() == old(x)@.len(),
            limbs_value(x@) == limbs_value(old(x)@) - limbs_value(y@.take(index as int)) + (
            if carry {
                1int
            } else {
                0int
            }) * pow2((64 * index) as nat),
            forall|j: int| index <= j < x@.len() ==> x@[j] == old(x)@[j],
        decreases ylen - index,
    {
        let xi = x.data[index];
        let yi = y[index];
        let cin_limb: Limb = if carry {
            1
        } else {
            0
        };
        let res = scalar_sub(xi, yi);
        let res2 = scalar_sub(res.0, cin_limb);
        let val = res2.0;
        let tmp = res.1 || res2.1;
        let ghost prev = x@;
        let ghost cin: int = cin_limb as int;
        let ghost cout: int = if tmp {
            1int
        } else {
            0int
        };
        x.data.set(index, val);
        proof {
            let pos = index as int;
            let p = pow2((64 * pos) as nat) as int;
            let p1 = pow2((64 * (pos + 1)) as nat) as int;
            let q = pow2(64) as int;
            lemma_limbs_value_update(prev, pos, val);
            lemma_pow2_adds((64 * pos) as nat, 64);
            lemma_limbs_value_take_succ(y@, pos);
            lemma2_to64();
            assert(!(res.1 && res2.1));
            assert(val == xi - yi - cin + cout * q);
            let va = limbs_value(x@) as int;
            let vp = limbs_value(prev) as int;
            let vo = limbs_value(old(x)@) as int;
            let vy = limbs_value(y@.take(pos)) as int;
            let vy1 = limbs_value(y@.take(pos + 1)) as int;
            assert(va == vo - vy1 + cout * p1) by (nonlinear_arith)
                requires
                    va + xi * p == vp + val * p,
                    vp == vo - vy + cin * p,
                    val == xi - yi - cin + cout * q,
                    vy1 == vy + yi * p,
                    p1 == p * q,
            ;
        }
        carry = tmp;
        index = index + 1;
    }
    proof {
        assert(y@.take(ylen as int) =~= y@);
    }
    if carry {
        if xlen > ylen {
            proof {
                // A normalized longer vector denotes at least the weight of
                // its top limb, so no net underflow is possible here.
                lemma_limbs_value_lower(old(x)@);
                lemma_limbs_value_bound(y@);
                if 64 * ylen < 64 * (xlen - 1) {
                    lemma_pow2_strictly_increases((64 * ylen) as nat, (64 * (xlen - 1)) as nat);
                }
                assert(limbs_value(old(x)@) >= limbs_value(y@));
                lemma_limbs_value_bound(x@);
                assert(1int * pow2((64 * ylen) as nat) == pow2((64 * ylen) as nat));
            }
            small_sub_from(x, 1, ylen);
        } else {
            proof {
                // Equal lengths and a final borrow: the subtrahend is larger.
                lemma_limbs_value_bound(x@);
                if limbs_value(old(x)@) >= limbs_value(y@) {
                    assert(false);
                }
            }
            self_clear(x);
        }
    } else {
        x.normalize();
    }
}

/// Empty the vector so it denotes zero.
fn self_clear<const SIZE: usize>(x: &mut StackVec<SIZE>)
    requires
        old(x).wf(),
    ensures
        final(x).wf(),
        final(x)@.len() == 0,
        limbs_value(final(x)@) == 0,
        limbs_normalized(final(x)@),
{
    x.data.clear();
    proof {
        assert(final(x)@.len() == 0);
    }
}

/// Divide the big integer by a small value in place, returning the remainder.
pub fn small_div<const SIZE: usize>(x: &mut StackVec<SIZE>, y: Limb) -> (rem: Limb)
    requires
        old(x).wf(),
        y != 0,
    ensures
        final(x).wf(),
        limbs_normalized(final(x)@),
        limbs_value(final(x)@) == limbs_value(old(x)@) / (y as nat),
        rem == limbs_value(old(x)@) % (y as nat),
        final(x)@.len() <= old(x)@.len(),
{
    let len = x.len();
    let mut i: usize = len;
    let mut rem: Limb = 0;
    proof {
        assert(x@.skip(len as int) =~= Seq::<u64>::empty());
        assert(limbs_value(Seq::<u64>::empty()) == 0);
        vstd::arithmetic::div_mod::lemma_div_of0(y as int);
        vstd::arithmetic::div_mod::lemma_mod_self_0(y as int);
        assert(0int % (y as int) == 0);
        assert(0int / (y as int) == 0);
    }
    while i > 0
        invariant
            x.wf(),
            i <= len,
            len == x@.len() == old(x)@.len(),
            y != 0,
            rem < y,
            forall|j: int| 0 <= j < i ==> x@[j] == old(x)@[j],
            limbs_value(x@.skip(i as int)) == limbs_value(old(x)@.skip(i as int)) / (y as nat),
            rem == limbs_value(old(x)@.skip(i as int)) % (y as nat),
        decreases i,
    {
        i = i - 1;
        let xi = x.data[i];
        let ghost prev = x@;
        let ghost hi_old = limbs_value(old(x)@.skip(i + 1));
        let ghost hi_new = limbs_value(x@.skip(i + 1));
        let res = scalar_div(xi, y, rem);
        x.data.set(i, res.0);
        proof {
            let q = pow2(64) as int;
            lemma2_to64();
            assert(x@.skip(i + 1) =~= prev.skip(i + 1));
            assert(old(x)@.skip(i as int) =~= seq![old(x)@[i as int]].add(old(x)@.skip(i + 1)));
            assert(x@.skip(i as int) =~= seq![res.0].add(x@.skip(i + 1)));
            crate::limbs::lemma_limbs_value_cons(old(x)@[i as int], old(x)@.skip(i + 1));
            crate::limbs::lemma_limbs_value_cons(res.0, x@.skip(i + 1));
            lemma_fundamental_div_mod(hi_old as int, y as int);
            let vo = limbs_value(old(x)@.skip(i as int)) as int;
            let vn = limbs_value(x@.skip(i as int)) as int;
            assert(vo == (y as int) * vn + res.1) by (nonlinear_arith)
                requires
                    vo == xi + q * hi_old,
                    vn == res.0 + q * (hi_old as int / y as int),
                    hi_old == (y as int) * (hi_old as int / y as int) + (hi_old as int % y as int),
                    rem == hi_old as int % y as int,
                    (res.0) * y + res.1 == xi + rem * q,
            ;
            lemma_fundamental_div_mod_converse(vo, y as int, vn, res.1 as int);
        }
        rem = res.1;
    }
    proof {
        assert(x@.skip(0) =~= x@);
        assert(old(x)@.skip(0) =~= old(x)@);
    }
    x.normalize();
    rem
}

/// Compare two normalized big integers by value.
pub fn compare(x: &[u64], y: &[u64]) -> (r: core::cmp::Ordering)
    requires
        limbs_normalized(x@),
        limbs_normalized(y@),
    ensures
        (r == core::cmp::Ordering::Less <==> limbs_value(x@) < limbs_value(y@)),
        (r == core::cmp::Ordering::Equal <==> limbs_value(x@) == limbs_value(y@)),
        (r == core::cmp::Ordering::Greater <==> limbs_value(x@) > limbs_value(y@)),
{
    if x.len() < y.len() {
        proof {
            lemma_limbs_value_shorter_lt(x@, y@);
        }
        core::cmp::Ordering::Less
    } else if y.len() < x.len() {
        proof {
            lemma_limbs_value_shorter_lt(y@, x@);
        }
        core::cmp::Ordering::Greater
    } else {
        let mut i: usize = x.len();
        while i > 0
            invariant
                i <= x@.len(),
                x@.len() == y@.len(),
                forall|j: int| i <= j < x@.len() ==> x@[j] == y@[j],
            decreases i,
        {
            i = i - 1;
            let xi = x[i];
            let yi = y[i];
            if xi < yi {
                proof {
                    lemma_limbs_value_lt_at(x@, y@, i as int);
                }
                return core::cmp::Ordering::Less;
            }
            if yi < xi {
                proof {
                    lemma_limbs_value_lt_at(y@, x@, i as int);
                }
                return core::cmp::Ordering::Greater;
            }
        }
        proof {
            assert(x@ =~= y@);
        }
        core::cmp::Ordering::Equal
    }
}

/// The number of leading zero bits of the top limb, or zero for an empty
/// vector.
pub fn leading_zeros(x: &[u64]) -> (r: u32)
    ensures
        x@.len() == 0 ==> r == 0,
        x@.len() > 0 ==> r == vstd::std_specs::bits::u64_leading_zeros(x@.last()),
{
    let len = x.len();
    if len == 0 {
        0
    } else {
        x[len - 1].leading_zeros()
    }
}

/// The position of the highest set bit of the big integer, that is, the
/// least `r` with `value < 2^r`, computed from the top limb.
pub fn bit_length(x: &[u64]) -> (r: u32)
    requires
        x@.len() <= 0x100_0000,
    ensures
        r == 64 * x@.len() - (if x@.len() == 0 {
            0int
        } else {
            vstd::std_specs::bits::u64_leading_zeros(x@.last()) as int
        }),
        limbs_normalized(x@) ==> limbs_value(x@) < pow2(r as nat),
        limbs_normalized(x@) && x@.len() > 0 ==> pow2((r - 1) as nat) <= limbs_value(x@),
        limbs_normalized(x@) ==> (limbs_value(x@) == 0 <==> r == 0),
        limbs_normalized(x@) ==> r == nat_bit_length(limbs_value(x@)),
    {
    let nlz = leading_zeros(x);
    let len = x.len();
    proof {
        if len == 0 {
            lemma2_to64();
            assert(limbs_value(x@) == 0);
            assert(nat_bit_length(0) == 0);
        } else {
            crate::limbs::lemma_u64_leading_zeros_bounds(x@.last());
            if limbs_normalized(x@) {
                let lz = vstd::std_specs::bits::u64_leading_zeros(x@.last()) as nat;
                let top = x@.last();
                let p = pow2((64 * (len - 1)) as nat) as int;
                let r_spec = (64 * len - lz) as nat;
                lemma_limbs_value_bound(x@.drop_last());
                lemma_pow2_adds(((64 - lz) as nat), (64 * (len - 1)) as nat);
                lemma_pow2_adds(((63 - lz) as nat), (64 * (len - 1)) as nat);
                assert(limbs_value(x@) == limbs_value(x@.drop_last()) + top * p);
                assert((top + 1) * p <= pow2((64 - lz) as nat) * p) by {
                    lemma_mul_inequality(top + 1, pow2((64 - lz) as nat) as int, p);
                }
                assert((top + 1) * p == top * p + p) by {
                    lemma_mul_is_distributive_add_other_way(p, top as int, 1int);
                }
                assert(limbs_value(x@) < pow2(r_spec));
                assert(pow2(((63 - lz) as nat)) * p <= top * p) by {
                    lemma_mul_inequality(pow2((63 - lz) as nat) as int, top as int, p);
                }
                assert(pow2((r_spec - 1) as nat) <= limbs_value(x@));
                crate::limbs::lemma_limbs_value_lower(x@);
                lemma_pow2_pos((64 * (len - 1)) as nat);
                lemma_nat_bit_length_unique(limbs_value(x@), r_spec);
            }
        }
    }
    64 * (len as u32) - nlz
}

/// Shift the big integer left by `n` bits, `0 < n < 64`: each limb takes the
/// shifted-out top bits of the limb below it, and a final carry limb is
/// appended when nonzero.
pub fn shl_bits<const SIZE: usize>(x: &mut StackVec<SIZE>, n: usize) -> (r: Option<()>)
    requires
        old(x).wf(),
        0 < n < 64,
        limbs_value(old(x)@) * pow2(n as nat) < pow2((64 * SIZE) as nat),
    ensures
        final(x).wf(),
        r == Some(()),
        limbs_value(final(x)@) == limbs_value(old(x)@) * pow2(n as nat),
        limbs_normalized(old(x)@) ==> limbs_normalized(final(x)@),
        old(x)@.len() <= final(x)@.len() <= old(x)@.len() + 1,
{
    proof {
        lemma_pow2_strictly_increases(n as nat, 64);
        lemma2_to64();
        vstd::bits::lemma_u64_shl_is_mul(1u64, n as u64);
    }
    let power: Limb = 1u64 << (n as u64);
    proof {
        lemma_pow2_pos(n as nat);
    }
    small_mul(x, power);
    Some(())
}

/// Shift the big integer left by `n` whole limbs, writing zeros below, or
/// report that the result would exceed the capacity.  An empty vector stays
/// empty, since it denotes zero.
pub fn shl_limbs<const SIZE: usize>(x: &mut StackVec<SIZE>, n: usize) -> (r: Option<()>)
    requires
        old(x).wf(),
    ensures
        final(x).wf(),
        n + old(x)@.len() > SIZE ==> r is None && final(x)@ == old(x)@,
        n + old(x)@.len() <= SIZE ==> r == Some(()) && limbs_value(final(x)@) == limbs_value(
            old(x)@,
        ) * pow2((64 * n) as nat),
        limbs_normalized(old(x)@) ==> limbs_normalized(final(x)@),
        n + old(x)@.len() <= SIZE && old(x)@.len() > 0 ==> final(x)@.len() == old(x)@.len() + n,
        old(x)@.len() == 0 ==> final(x)@ == old(x)@,
    {
    let len = x.len();
    if n > SIZE || len > SIZE - n {
        proof {
            vstd::arithmetic::mul::lemma_mul_nonnegative(
                limbs_value(old(x)@) as int,
                pow2((64 * n) as nat) as int,
            );
        }
        None
    } else if len != 0 {
        let mut shifted: Vec<u64> = Vec::new();
        let mut i: usize = 0;
        while i < n
            invariant
                i <= n,
                shifted@.len() == i,
                forall|j: int| 0 <= j < i ==> shifted@[j] == 0u64,
            decreases n - i,
        {
            shifted.push(0u64);
            i = i + 1;
        }
        let mut k: usize = 0;
        while k < len
            invariant
                k <= len,
                len == x@.len(),
                x@ == old(x)@,
                shifted@.len() == n + k,
                forall|j: int| 0 <= j < n ==> shifted@[j] == 0u64,
                forall|j: int| n <= j < n + k ==> shifted@[j] == x@[j - n],
            decreases len - k,
        {
            shifted.push(x.data[k]);
            k = k + 1;
        }
        proof {
            lemma_limbs_value_split(shifted@, n as int);
            lemma_limbs_value_all_zero(shifted@.take(n as int));
            assert(shifted@.skip(n as int) =~= old(x)@);
            lemma_mul_is_commutative(
                pow2((64 * n) as nat) as int,
                limbs_value(old(x)@) as int,
            );
        }
        x.data = shifted;
        Some(())
    } else {
        proof {
            assert(limbs_value(old(x)@) == 0);
            assert(limbs_value(old(x)@) * pow2((64 * n) as nat) == 0);
        }
        Some(())
    }
}

/// Shift the big integer left by `n` bits, combining a sub-limb bit shift
/// with a whole-limb shift.
pub fn shl<const SIZE: usize>(x: &mut StackVec<SIZE>, n: usize) -> (r: Option<()>)
    requires
        old(x).wf(),
        limbs_normalized(old(x)@),
        n <= 64 * SIZE,
        limbs_value(old(x)@) * pow2(n as nat) < pow2((64 * SIZE) as nat),
    ensures
        final(x).wf(),
        r == Some(()),
        limbs_normalized(final(x)@),
        limbs_value(final(x)@) == limbs_value(old(x)@) * pow2(n as nat),
{
    let rem = n % 64;
    let div = n / 64;
    let ghost mid = limbs_value(old(x)@) * pow2(rem as nat);
    proof {
        lemma_fundamental_div_mod(n as int, 64);
        lemma_pow2_adds(rem as nat, (64 * div) as nat);
        let v = limbs_value(old(x)@) as int;
        let a = pow2(rem as nat) as int;
        let b = pow2((64 * div) as nat) as int;
        assert(v * pow2(n as nat) == (v * a) * b) by (nonlinear_arith)
            requires
                pow2(n as nat) == a * b,
        ;
        lemma_pow2_pos(rem as nat);
        lemma_pow2_pos((64 * div) as nat);
        assert(v * a <= (v * a) * b) by (nonlinear_arith)
            requires
                v * a >= 0,
                b >= 1,
        ;
    }
    if rem != 0 {
        shl_bits(x, rem);
    }
    if div != 0 {
        proof {
            // The shifted value still fits, so the limb count after the bit
            // shift leaves room for `div` more limbs.
            if rem == 0 {
                lemma2_to64();
                assert(mid == limbs_value(old(x)@) * 1);
            }
            assert(limbs_value(x@) == mid);
            if x@.len() > 0 {
                lemma_limbs_value_lower(x@);
                let lo = (64 * (x@.len() - 1)) as nat;
                lemma_pow2_adds(lo, (64 * div) as nat);
                let b = pow2((64 * div) as nat) as int;
                assert(pow2(lo) * b <= mid * b) by (nonlinear_arith)
                    requires
                        pow2(lo) <= mid,
                        b >= 0,
                ;
                if x@.len() + div > SIZE {
                    lemma_pow2_strictly_increases(
                        (64 * SIZE) as nat,
                        (lo + 64 * div) as nat,
                    );
                    assert(false);
                }
            }
        }
        shl_limbs(x, div);
    }
    proof {
        if div == 0 {
            lemma2_to64();
            assert(pow2(0) == 1);
            assert(mid * 1 == mid);
        }
        if rem == 0 {
            lemma2_to64();
            assert(limbs_value(old(x)@) * pow2(0) == limbs_value(old(x)@) * 1);
        }
    }
    Some(())
}

/// Whether any limb below position `len - rindex` is nonzero, that is,
/// whether the low part of the integer denotes a nonzero value.
pub fn nonzero(x: &[u64], rindex: usize) -> (r: bool)
    requires
        rindex <= x@.len(),
    ensures
        r <==> limbs_value(x@.take((x@.len() - rindex) as int)) != 0,
{
    let limit = x.len() - rindex;
    let ghost pre = x@.take((x@.len() - rindex) as int);
    let mut i: usize = 0;
    while i < limit
        invariant
            i <= limit == x@.len() - rindex,
            pre == x@.take((x@.len() - rindex) as int),
            forall|j: int| 0 <= j < i ==> x@[j] == 0,
        decreases limit - i,
    {
        if x[i] != 0 {
            proof {
                lemma_limbs_value_zero_iff(pre);
                assert(pre[i as int] == x@[i as int]);
            }
            return true;
        }
        i = i + 1;
    }
    proof {
        lemma_limbs_value_zero_iff(pre);
        assert(forall|j: int| 0 <= j < pre.len() ==> pre[j] == 0);
    }
    false
}

/// Shift a nonzero limb left so its top bit is set; nothing is shifted out,
/// so the truncated flag is always false.
pub fn u64_to_hi64_1(r0: u64) -> (r: (u64, bool))
    requires
        r0 != 0,
    ensures
        r.0 == r0 * pow2(u64_leading_zeros(r0) as nat),
        r.1 == false,
        r.0 >= pow2(63),
{
    proof {
        lemma_u64_leading_zeros_bounds(r0);
        let lz = u64_leading_zeros(r0) as nat;
        lemma_pow2_adds((63 - lz) as nat, lz);
        lemma_pow2_adds((64 - lz) as nat, lz);
        lemma_pow2_pos(lz);
        lemma2_to64();
        assert(pow2((63 - lz) as nat) * pow2(lz) <= r0 * pow2(lz)) by {
            lemma_mul_inequality(pow2((63 - lz) as nat) as int, r0 as int, pow2(lz) as int);
        }
        assert(r0 * pow2(lz) < pow2((64 - lz) as nat) * pow2(lz)) by {
            lemma_mul_strict_inequality(r0 as int, pow2((64 - lz) as nat) as int, pow2(lz) as int);
        }
        vstd::bits::lemma_u64_shl_is_mul(r0, u64_leading_zeros(r0) as u64);
    }
    let ls = r0.leading_zeros() as u64;
    (r0 << ls, false)
}

/// Normalize the 128-bit value `r0 * 2^64 + r1` (`r0` the more significant
/// limb, nonzero) to its top 64 bits, reporting whether nonzero bits were
/// shifted out.
pub fn u64_to_hi64_2(r0: u64, r1: u64) -> (r: (u64, bool))
    requires
        r0 != 0,
    ensures
        ({
            let total = r0 * pow2(64) + r1;
            let rs = (64 - u64_leading_zeros(r0)) as nat;
            &&& r.0 == total / (pow2(rs) as int)
            &&& (r.1 <==> total % (pow2(rs) as int) != 0)
            &&& r.0 >= pow2(63)
        }),
{
    proof {
        lemma_u64_leading_zeros_bounds(r0);
        lemma2_to64();
    }
    let ls = r0.leading_zeros() as u64;
    let rs: u64 = 64 - ls;
    let ghost total: int = r0 * pow2(64) + r1;
    if ls == 0 {
        let n = r1 != 0;
        proof {
            lemma_fundamental_div_mod_converse(total, pow2(64) as int, r0 as int, r1 as int);
        }
        (r0, n)
    } else {
        let v = (r0 << ls) | (r1 >> rs);
        let n = (r1 << ls) != 0;
        proof {
            let lz = ls as nat;
            let rsn = rs as nat;
            lemma_pow2_adds(lz, rsn);
            lemma_pow2_pos(lz);
            lemma_pow2_pos(rsn);
            lemma_pow2_strictly_increases(rsn, 64);
            // r0 << ls does not overflow: r0 < 2^rs.
            assert(r0 * pow2(lz) <= (pow2(rsn) - 1) * pow2(lz)) by {
                lemma_mul_inequality(r0 as int, pow2(rsn) as int - 1, pow2(lz) as int);
            }
            assert((pow2(rsn) - 1) * pow2(lz) == pow2(64) - pow2(lz)) by {
                lemma_mul_is_distributive_sub_other_way(pow2(lz) as int, pow2(rsn) as int, 1int);
            }
            vstd::bits::lemma_u64_shl_is_mul(r0, ls);
            vstd::bits::lemma_u64_shr_is_div(r1, rs);
            vstd::bits::lemma_u64_shl_is_mul(1u64, rs);
            assert(((r0 << ls) | (r1 >> rs)) == (r0 << ls) + (r1 >> rs)) by (bit_vector)
                requires
                    ls + rs == 64,
                    0 < ls < 64,
            ;
            // v == (r0 * 2^lz) + r1 / 2^rs == total / 2^rs.
            assert((r1 + (r0 * pow2(lz)) * pow2(rsn)) / (pow2(rsn) as int) == (r0 * pow2(lz)) as int
                + (r1 as int) / (pow2(rsn) as int)) by {
                lemma_pow2_pos(rsn);
                lemma_hoist_over_denominator(r1 as int, (r0 * pow2(lz)) as int, pow2(rsn));
            }
            assert((r0 * pow2(lz)) * pow2(rsn) == r0 * pow2(64)) by {
                lemma_mul_is_associative(r0 as int, pow2(lz) as int, pow2(rsn) as int);
            }
            // Sticky flag: total % 2^rs == r1 % 2^rs, detected by r1 << ls.
            assert((pow2(rsn) * (r0 * pow2(lz)) + r1) % (pow2(rsn) as int) == (r1 as int) % (
            pow2(rsn) as int)) by {
                lemma_mod_multiples_vanish((r0 * pow2(lz)) as int, r1 as int, pow2(rsn) as int);
            }
            assert(pow2(rsn) * (r0 * pow2(lz)) == (r0 * pow2(lz)) * pow2(rsn)) by {
                lemma_mul_is_commutative(pow2(rsn) as int, (r0 * pow2(lz)) as int);
            }
            assert((r1 << ls == 0) == ((r1 & (((1u64 << rs) - 1) as u64)) == 0)) by (bit_vector)
                requires
                    ls + rs == 64,
                    0 < ls < 64,
            ;
            vstd::bits::lemma_u64_low_bits_mask_is_mod(r1, rsn);
            assert((vstd::bits::low_bits_mask(rsn) as u64) == ((1u64 << rs) - 1) as u64);
            assert((r1 % (pow2(rsn) as u64)) as int == (r1 as int) % (pow2(rsn) as int));
            // The result has its top bit set.
            assert(pow2(63) <= (r0 * pow2(lz)) + (r1 as int) / (pow2(rsn) as int)) by {
                lemma_pow2_adds((63 - lz) as nat, lz);
                lemma_mul_inequality(pow2((63 - lz) as nat) as int, r0 as int, pow2(lz) as int);
                lemma_pow2_pos(rsn);
                vstd::arithmetic::div_mod::lemma_div_pos_is_pos(r1 as int, pow2(rsn) as int);
            }
        }
        (v, n)
    }
}


} // verus!
