//! Multiplication of big integers: the grade-school algorithm for short
//! operands and Karatsuba's split above the cutoff.

use vstd::prelude::*;

verus! {

use vstd::arithmetic::power2::*;
use vstd::arithmetic::div_mod::*;
use vstd::arithmetic::mul::*;
use crate::limbs::{
    limbs_value, limbs_normalized, lemma_limbs_value_take_succ, lemma_limbs_value_bound,
    lemma_limbs_value_lower, lemma_limbs_value_split, lemma_limbs_value_single,
    lemma_limbs_value_take_le,
};
use crate::bigint::{
    StackVec, Limb, small_mul, large_add_from, large_add, large_sub,
};

/// Limb counts below which multiplication falls back to the grade-school
/// algorithm rather than recursing.
pub const KARATSUBA_CUTOFF: usize = 32;

/// Grade-school multiplication: multiply `x` by each limb of `y` and
/// accumulate the partial products at their offsets.
#[verifier::spinoff_prover]
pub fn long_mul<const SIZE: usize>(x: &[u64], y: &[u64]) -> (r: StackVec<SIZE>)
    requires
        x@.len() + y@.len() <= SIZE,
    ensures
        r.wf(),
        limbs_normalized(r@),
        limbs_value(r@) == limbs_value(x@) * limbs_value(y@),
{
    proof {
        lemma_limbs_value_bound(x@);
        lemma_limbs_value_bound(y@);
        lemma_pow2_adds((64 * x@.len()) as nat, (64 * y@.len()) as nat);
        assert(limbs_value(x@) * limbs_value(y@) < pow2((64 * (x@.len() + y@.len())) as nat))
            by (nonlinear_arith)
            requires
                limbs_value(x@) < pow2((64 * x@.len()) as nat),
                limbs_value(y@) < pow2((64 * y@.len()) as nat),
                pow2((64 * (x@.len() + y@.len())) as nat) == pow2((64 * x@.len()) as nat) * pow2(
                    (64 * y@.len()) as nat,
                ),
        ;
        if x@.len() + y@.len() < SIZE {
            lemma_pow2_strictly_increases(
                (64 * (x@.len() + y@.len())) as nat,
                (64 * SIZE) as nat,
            );
        }
    }
    let ghost total = limbs_value(x@) * limbs_value(y@);
    if y.len() == 0 {
        proof {
            assert(limbs_value(y@) == 0);
            assert(limbs_value(x@) * 0 == 0);
        }
        return StackVec::new();
    }
    let mut z = match StackVec::<SIZE>::try_from(x) {
        Some(v) => v,
        None => {
            proof {
                assert(false);
            }
            StackVec::new()
        },
    };
    let y0 = y[0];
    proof {
        lemma_limbs_value_take_le(y@, 1);
        assert(y@.take(1) =~= seq![y0]);
        lemma_limbs_value_single(y0);
        assert(limbs_value(x@) * y0 <= limbs_value(x@) * limbs_value(y@)) by (nonlinear_arith)
            requires
                y0 <= limbs_value(y@),
                limbs_value(x@) >= 0,
        ;
    }
    small_mul(&mut z, y0);
    let mut index: usize = 1;
    while index < y.len()
        invariant
            z.wf(),
            1 <= index <= y@.len(),
            x@.len() + y@.len() <= SIZE,
            total == limbs_value(x@) * limbs_value(y@),
            total < pow2((64 * SIZE) as nat),
            limbs_value(z@) == limbs_value(x@) * limbs_value(y@.take(index as int)),
        decreases y@.len() - index,
    {
        let yi = y[index];
        proof {
            lemma_limbs_value_take_succ(y@, index as int);
            lemma_limbs_value_take_le(y@, index + 1);
            lemma_pow2_pos((64 * index) as nat);
        }
        if yi != 0 {
            let mut zi = match StackVec::<SIZE>::try_from(x) {
                Some(v) => v,
                None => {
                    proof {
                        assert(false);
                    }
                    StackVec::new()
                },
            };
            proof {
                // The scaled partial product still fits below the capacity.
                let vx = limbs_value(x@) as int;
                let vy = limbs_value(y@) as int;
                let vyk = limbs_value(y@.take(index as int)) as int;
                let vyk1 = limbs_value(y@.take(index + 1)) as int;
                let pi = pow2((64 * index) as nat) as int;
                assert(vx * yi * pi + vx * vyk == vx * vyk1 <= vx * vy) by (nonlinear_arith)
                    requires
                        vyk1 == vyk + yi * pi,
                        vyk1 <= vy,
                        vx >= 0,
                        vyk >= 0,
                ;
                assert(vx * yi >= 0 && vx * vyk >= 0 && vx * yi * pi >= vx * yi)
                    by (nonlinear_arith)
                    requires
                        vx >= 0,
                        yi >= 0,
                        vyk >= 0,
                        pi >= 1,
                ;
            }
            small_mul(&mut zi, yi);
            proof {
                // The partial product's limb count fits at this offset.
                assert(zi@.len() <= x@.len() + 1);
                assert(index + 1 <= y@.len());
                assert(zi@.len() + index <= SIZE);
            }
            large_add_from(&mut z, zi.as_slice(), index);
        } else {
            proof {
                let pi = pow2((64 * index) as nat) as int;
                assert(yi * pi == 0) by (nonlinear_arith)
                    requires
                        yi == 0,
                ;
                assert(limbs_value(y@.take(index + 1)) == limbs_value(y@.take(index as int)));
            }
        }
        index = index + 1;
    }
    proof {
        assert(y@.take(y@.len() as int) =~= y@);
    }
    z.normalize();
    z
}

/// Split a sequence of limbs at an index into its low and high parts.
pub fn karatsuba_split<'a>(x: &'a [u64], index: usize) -> (r: (&'a [u64], &'a [u64]))
    requires
        index <= x@.len(),
    ensures
        r.0@ == x@.take(index as int),
        r.1@ == x@.skip(index as int),
{
    let lo = vstd::slice::slice_subrange(x, 0, index);
    let hi = vstd::slice::slice_subrange(x, index, x.len());
    proof {
        assert(x@.subrange(0, index as int) =~= x@.take(index as int));
        assert(x@.subrange(index as int, x@.len() as int) =~= x@.skip(index as int));
    }
    (lo, hi)
}

/// Karatsuba multiplication for operands of roughly equal limb counts: split
/// at the midpoint, do three recursive multiplications, and recombine.
#[verifier::spinoff_prover]
pub fn karatsuba_mul<const SIZE: usize>(x: &[u64], y: &[u64]) -> (r: StackVec<SIZE>)
    requires
        x@.len() <= y@.len(),
        x@.len() + y@.len() <= SIZE,
    ensures
        r.wf(),
        limbs_value(r@) == limbs_value(x@) * limbs_value(y@),
    decreases y@.len(), 1int,
{
    if y.len() <= KARATSUBA_CUTOFF {
        long_mul(x, y)
    } else if x.len() < y.len() / 2 {
        karatsuba_uneven_mul(x, y)
    } else {
        let m = y.len() / 2;
        let split_x = karatsuba_split(x, m);
        let xl = split_x.0;
        let xh = split_x.1;
        let split_y = karatsuba_split(y, m);
        let yl = split_y.0;
        let yh = split_y.1;
        let ghost vxl = limbs_value(xl@) as int;
        let ghost vxh = limbs_value(xh@) as int;
        let ghost vyl = limbs_value(yl@) as int;
        let ghost vyh = limbs_value(yh@) as int;
        let ghost pm = pow2((64 * m) as nat) as int;
        proof {
            lemma_limbs_value_split(x@, m as int);
            lemma_limbs_value_split(y@, m as int);
            lemma_limbs_value_bound(xl@);
            lemma_limbs_value_bound(xh@);
            lemma_limbs_value_bound(yl@);
            lemma_limbs_value_bound(yh@);
            lemma_mul_nonnegative(pm, vxh);
            lemma_mul_nonnegative(pm, vyh);
            assert(vxh <= pm * vxh && vyh <= pm * vyh) by (nonlinear_arith)
                requires
                    pm >= 1,
                    vxh >= 0,
                    vyh >= 0,
            ;
            lemma_limbs_value_bound(x@);
            lemma_limbs_value_bound(y@);
            if x@.len() < SIZE {
                lemma_pow2_strictly_increases((64 * x@.len()) as nat, (64 * SIZE) as nat);
            }
            if y@.len() < SIZE {
                lemma_pow2_strictly_increases((64 * y@.len()) as nat, (64 * SIZE) as nat);
            }
            assert(vxl + vxh < pow2((64 * SIZE) as nat));
            assert(vyl + vyh < pow2((64 * SIZE) as nat));
        }
        let mut sumx = match StackVec::<SIZE>::try_from(xl) {
            Some(v) => v,
            None => {
                proof {
                    assert(false);
                }
                StackVec::new()
            },
        };
        large_add(&mut sumx, xh);
        let mut sumy = match StackVec::<SIZE>::try_from(yl) {
            Some(v) => v,
            None => {
                proof {
                    assert(false);
                }
                StackVec::new()
            },
        };
        large_add(&mut sumy, yh);
        proof {
            lemma_limbs_value_bound(sumx@);
            lemma_limbs_value_bound(sumy@);
        }
        proof {
            assert(sumx@.len() <= m + 2);
            assert(sumy@.len() <= m + 2);
            assert(m >= 16);
            assert(x@.len() >= m);
            assert(y@.len() >= 2 * m);
            assert(sumx@.len() + sumy@.len() <= SIZE);
        }
        let mut z0 = karatsuba_mul::<SIZE>(xl, yl);
        let mut z1 = if sumx.len() <= sumy.len() {
            karatsuba_mul::<SIZE>(sumx.as_slice(), sumy.as_slice())
        } else {
            let swapped = karatsuba_mul::<SIZE>(sumy.as_slice(), sumx.as_slice());
            proof {
                lemma_mul_is_commutative(limbs_value(sumy@) as int, limbs_value(sumx@) as int);
            }
            swapped
        };
        let mut z2 = karatsuba_mul::<SIZE>(xh, yh);
        z0.normalize();
        z1.normalize();
        z2.normalize();
        let ghost vz0 = limbs_value(z0@) as int;
        let ghost vz1 = limbs_value(z1@) as int;
        let ghost vz2 = limbs_value(z2@) as int;
        proof {
            // `z1` is the full cross sum, so the two subtractions stay
            // nonnegative.
            assert(vz1 == vz0 + vz2 + (vxl * vyh + vxh * vyl) && vxl * vyh >= 0 && vxh * vyl
                >= 0) by (nonlinear_arith)
                requires
                    vz1 == (vxl + vxh) * (vyl + vyh),
                    vz0 == vxl * vyl,
                    vz2 == vxh * vyh,
                    vxl >= 0,
                    vxh >= 0,
                    vyl >= 0,
                    vyh >= 0,
            ;
        }
        large_sub(&mut z1, z2.as_slice());
        large_sub(&mut z1, z0.as_slice());
        let ghost vmid = limbs_value(z1@) as int;
        let mut result = StackVec::<SIZE>::new();
        let ghost vx = limbs_value(x@) as int;
        let ghost vy = limbs_value(y@) as int;
        proof {
            // The recombination is the full product, and each partial sum
            // stays below it, hence below the capacity.
            lemma_limbs_value_bound(x@);
            lemma_limbs_value_bound(y@);
            lemma_pow2_adds((64 * x@.len()) as nat, (64 * y@.len()) as nat);
            if x@.len() + y@.len() < SIZE {
                lemma_pow2_strictly_increases(
                    (64 * (x@.len() + y@.len())) as nat,
                    (64 * SIZE) as nat,
                );
            }
            lemma_pow2_adds((64 * m) as nat, (64 * m) as nat);
            assert(vx * vy == vz0 + pm * vmid + (pm * pm) * vz2 && vz0 + pm * vmid <= vx * vy
                && vx * vy < pow2((64 * x@.len()) as nat) * pow2((64 * y@.len()) as nat) && pm
                * vmid >= 0 && (pm * pm) * vz2 >= 0) by (nonlinear_arith)
                requires
                    vx == vxl + pm * vxh,
                    vy == vyl + pm * vyh,
                    vz0 == vxl * vyl,
                    vz2 == vxh * vyh,
                    vmid == vxl * vyh + vxh * vyl,
                    vxl >= 0,
                    vxh >= 0,
                    vyl >= 0,
                    vyh >= 0,
                    pm >= 1,
                    vx < pow2((64 * x@.len()) as nat),
                    vy < pow2((64 * y@.len()) as nat),
                    vxl < pow2((64 * m) as nat),
                    vyl < pow2((64 * m) as nat),
                    pm == pow2((64 * m) as nat),
            ;
            // Length bounds for the offset additions, from normalization.
            if z1@.len() > 0 {
                lemma_limbs_value_lower(z1@);
                lemma_pow2_adds((64 * (z1@.len() - 1)) as nat, (64 * m) as nat);
                assert(pow2((64 * (z1@.len() - 1)) as nat) * pm <= vmid * pm)
                    by (nonlinear_arith)
                    requires
                        pow2((64 * (z1@.len() - 1)) as nat) <= vmid,
                        pm >= 0,
                ;
                assert(vmid * pm == pm * vmid) by {
                    lemma_mul_is_commutative(vmid, pm);
                }
                if z1@.len() + m > SIZE {
                    lemma_pow2_strictly_increases(
                        (64 * SIZE) as nat,
                        (64 * (z1@.len() - 1 + m)) as nat,
                    );
                    assert(false);
                }
            }
            if z2@.len() > 0 {
                lemma_limbs_value_lower(z2@);
                lemma_pow2_adds((64 * (z2@.len() - 1)) as nat, (64 * (2 * m)) as nat);
                assert(pow2((64 * (z2@.len() - 1)) as nat) * (pm * pm) <= vz2 * (pm * pm)
                    && vz2 * (pm * pm) == (pm * pm) * vz2 && pow2((64 * (z2@.len() - 1)) as nat)
                    * (pm * pm) == pow2((64 * (z2@.len() - 1 + 2 * m)) as nat))
                    by (nonlinear_arith)
                    requires
                        pow2((64 * (z2@.len() - 1)) as nat) <= vz2,
                        pm >= 0,
                        pow2((64 * (z2@.len() - 1 + 2 * m)) as nat) == pow2(
                            (64 * (z2@.len() - 1)) as nat,
                        ) * pow2((64 * (2 * m)) as nat),
                        pow2((64 * (2 * m)) as nat) == pm * pm,
                ;
                if z2@.len() + 2 * m > SIZE {
                    lemma_pow2_strictly_increases(
                        (64 * SIZE) as nat,
                        (64 * (z2@.len() - 1 + 2 * m)) as nat,
                    );
                    assert(false);
                }
            }
        }
        result.try_extend(z0.as_slice());
        large_add_from(&mut result, z1.as_slice(), m);
        proof {
            lemma_pow2_adds((64 * m) as nat, (64 * m) as nat);
            assert(limbs_value(result@) + vz2 * (pm * pm) == vx * vy && vz2 * (pm * pm) == (pm
                * pm) * vz2) by (nonlinear_arith)
                requires
                    limbs_value(result@) == vz0 + vmid * pm,
                    vx * vy == vz0 + pm * vmid + (pm * pm) * vz2,
            ;
        }
        large_add_from(&mut result, z2.as_slice(), 2 * m);
        result
    }
}

/// Karatsuba multiplication where `y` has far more limbs than `x`: walk `y`
/// in chunks the size of `x`, multiplying each chunk and accumulating at its
/// offset.
#[verifier::spinoff_prover]
pub fn karatsuba_uneven_mul<const SIZE: usize>(x: &[u64], y: &[u64]) -> (r: StackVec<SIZE>)
    requires
        x@.len() < y@.len(),
        x@.len() + y@.len() <= SIZE,
    ensures
        r.wf(),
        limbs_normalized(r@),
        limbs_value(r@) == limbs_value(x@) * limbs_value(y@),
    decreases y@.len(), 0int,
{
    let ghost vx = limbs_value(x@) as int;
    let ghost vy = limbs_value(y@) as int;
    proof {
        lemma_limbs_value_bound(x@);
        lemma_limbs_value_bound(y@);
        lemma_pow2_adds((64 * x@.len()) as nat, (64 * y@.len()) as nat);
        if x@.len() + y@.len() < SIZE {
            lemma_pow2_strictly_increases((64 * (x@.len() + y@.len())) as nat, (64 * SIZE) as nat);
        }
        assert(vx * vy < pow2((64 * SIZE) as nat)) by (nonlinear_arith)
            requires
                vx < pow2((64 * x@.len()) as nat),
                vy < pow2((64 * y@.len()) as nat),
                0 <= vx,
                0 <= vy,
                pow2((64 * x@.len()) as nat) * pow2((64 * y@.len()) as nat) <= pow2(
                    (64 * SIZE) as nat,
                ),
        ;
    }
    let mut result = StackVec::<SIZE>::new();
    if x.len() == 0 {
        proof {
            assert(limbs_value(x@) == 0);
            assert(vx * vy == 0) by (nonlinear_arith)
                requires
                    vx == 0,
            ;
        }
        return result;
    }
    let mut yy: &[u64] = y;
    let mut start: usize = 0;
    proof {
        assert(y@.skip(0) =~= y@);
        assert(y@.take(0) =~= Seq::<u64>::empty());
        assert(limbs_value(Seq::<u64>::empty()) == 0);
        assert(vx * 0 == 0);
    }
    while yy.len() != 0
        invariant
            result.wf(),
            0 < x@.len(),
            x@.len() < y@.len(),
            x@.len() + y@.len() <= SIZE,
            start <= y@.len(),
            yy@ == y@.skip(start as int),
            vx == limbs_value(x@),
            vy == limbs_value(y@),
            vx * vy < pow2((64 * SIZE) as nat),
            limbs_value(result@) == vx * limbs_value(y@.take(start as int)),
        decreases yy@.len(),
    {
        let m = if x.len() < yy.len() {
            x.len()
        } else {
            yy.len()
        };
        let split = karatsuba_split(yy, m);
        let yl = split.0;
        let yh = split.1;
        let mut prod: StackVec<SIZE> = if x.len() <= yl.len() {
            karatsuba_mul::<SIZE>(x, yl)
        } else {
            let swapped = karatsuba_mul::<SIZE>(yl, x);
            proof {
                lemma_mul_is_commutative(limbs_value(yl@) as int, limbs_value(x@) as int);
            }
            swapped
        };
        prod.normalize();
        let ghost vyl = limbs_value(yl@) as int;
        let ghost ps = pow2((64 * start) as nat) as int;
        proof {
            // The chunk product, scaled to its offset, stays below the whole
            // product.
            lemma_pow2_pos((64 * start) as nat);
            lemma_limbs_value_split(y@, start as int);
            lemma_limbs_value_take_le(y@.skip(start as int), m as int);
            assert(y@.skip(start as int).take(m as int) =~= yl@);
            let vrest = limbs_value(y@.skip(start as int)) as int;
            let vtk = limbs_value(y@.take(start as int)) as int;
            assert(vx * vyl * ps + vx * vtk <= vx * vy) by (nonlinear_arith)
                requires
                    vy == vtk + ps * vrest,
                    vyl <= vrest,
                    vx >= 0,
                    vtk >= 0,
                    vyl >= 0,
                    ps >= 1,
            ;
            assert(vx * vyl >= 0 && vx * vtk >= 0) by (nonlinear_arith)
                requires
                    vx >= 0,
                    vyl >= 0,
                    vtk >= 0,
            ;
            if prod@.len() > 0 {
                lemma_limbs_value_lower(prod@);
                lemma_pow2_adds((64 * (prod@.len() - 1)) as nat, (64 * start) as nat);
                assert(pow2((64 * (prod@.len() - 1)) as nat) * ps <= (vx * vyl) * ps)
                    by (nonlinear_arith)
                    requires
                        pow2((64 * (prod@.len() - 1)) as nat) <= vx * vyl,
                        ps >= 0,
                ;
                assert((vx * vyl) * ps == vx * vyl * ps);
                if prod@.len() + start > SIZE {
                    lemma_pow2_strictly_increases(
                        (64 * SIZE) as nat,
                        (64 * (prod@.len() - 1 + start)) as nat,
                    );
                    assert(false);
                }
            }
        }
        large_add_from(&mut result, prod.as_slice(), start);
        proof {
            // Extending the processed prefix by the chunk accounts for the
            // new accumulated value.
            let ps1 = pow2((64 * (start + m)) as nat) as int;
            lemma_limbs_value_split(y@.take((start + m) as int), start as int);
            assert(y@.take((start + m) as int).take(start as int) =~= y@.take(start as int));
            assert(y@.take((start + m) as int).skip(start as int) =~= yl@);
            let vtk = limbs_value(y@.take(start as int)) as int;
            let vtk1 = limbs_value(y@.take((start + m) as int)) as int;
            assert(limbs_value(result@) == vx * vtk1) by (nonlinear_arith)
                requires
                    limbs_value(result@) == vx * vtk + (vx * vyl) * ps,
                    vtk1 == vtk + ps * vyl,
            ;
            assert(y@.skip(start as int).skip(m as int) =~= y@.skip((start + m) as int));
        }
        yy = yh;
        start = start + m;
    }
    proof {
        assert(start == y@.len());
        assert(y@.take(start as int) =~= y@);
    }
    result.normalize();
    result
}

/// Multiply this big integer by another, dispatching on their sizes.
#[verifier::spinoff_prover]
pub fn large_mul<const SIZE: usize>(x: &mut StackVec<SIZE>, y: &[u64])
    requires
        old(x).wf(),
        old(x)@.len() + y@.len() <= SIZE,
    ensures
        final(x).wf(),
        limbs_normalized(final(x)@),
        limbs_value(final(x)@) == limbs_value(old(x)@) * limbs_value(y@),
{
    if y.len() == 1 {
        let y0 = y[0];
        proof {
            assert(y@ =~= seq![y0]);
            lemma_limbs_value_single(y0);
            lemma_limbs_value_bound(old(x)@);
            lemma_pow2_adds((64 * old(x)@.len()) as nat, 64);
            lemma2_to64();
            if 64 * (old(x)@.len() + 1) < 64 * SIZE {
                lemma_pow2_strictly_increases(
                    (64 * (old(x)@.len() + 1)) as nat,
                    (64 * SIZE) as nat,
                );
            }
            let vo = limbs_value(old(x)@) as int;
            let po = pow2((64 * old(x)@.len()) as nat) as int;
            assert(vo * y0 < pow2((64 * SIZE) as nat)) by (nonlinear_arith)
                requires
                    vo < po,
                    y0 < pow2(64),
                    0 <= vo,
                    po * pow2(64) <= pow2((64 * SIZE) as nat),
            ;
        }
        small_mul(x, y0);
        x.normalize();
    } else if x.len() < y.len() {
        let r = karatsuba_mul::<SIZE>(x.as_slice(), y);
        *x = r;
        x.normalize();
    } else {
        let r = karatsuba_mul::<SIZE>(y, x.as_slice());
        proof {
            lemma_mul_is_commutative(limbs_value(y@) as int, limbs_value(old(x)@) as int);
        }
        *x = r;
        x.normalize();
    }
}

} // verus!
