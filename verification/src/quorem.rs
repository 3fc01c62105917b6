//! The specialized single-digit division used by the byte-comparison
//! algorithm: divide by a wider divisor whose top limb is scaled so the
//! quotient is a single digit.

use vstd::prelude::*;

verus! {

use vstd::arithmetic::power2::*;
use vstd::arithmetic::div_mod::*;
use vstd::arithmetic::mul::*;
use crate::limbs::{
    limbs_value, limbs_normalized, lemma_limbs_value_take_succ, lemma_limbs_value_bound,
    lemma_limbs_value_lower, lemma_limbs_value_drop_zero, lemma_limbs_value_split,
    lemma_limbs_value_update, lemma_limbs_value_shorter_lt, lemma_limbs_value_single,
};
use crate::bigint::{StackVec, Limb, scalar_sub, scalar_mul, compare, large_sub};

/// Multiplying a six-term sum through by a factor distributes.
proof fn lemma_mul_distribute_six(t: int, a: int, b: int, c: int, d: int, e: int, f: int, p: int)
    by (nonlinear_arith)
    requires
        t == a - b - c + d - e + f,
    ensures
        t * p == a * p - b * p - c * p + d * p - e * p + f * p,
{
}

/// The per-limb accounting of one step of the fused multiply-subtract.
proof fn lemma_quorem_step(
    va1: int, va: int, vo: int, vo1: int, vy: int, vy1: int, xj: int, yj: int, q: int,
    carry: int, borrow: int, p: int, p1: int, q64: int, prod0: int, prod1: int, res2: int,
    bout: int,
)
    requires
        va1 == va + res2 * p,
        va == vo - q * vy + (carry + borrow) * p,
        vo1 == vo + xj * p,
        vy1 == vy + yj * p,
        res2 == xj - prod0 - borrow + bout * q64,
        prod0 == yj * q + carry - prod1 * q64,
        p1 == p * q64,
    ensures
        va1 == vo1 - q * vy1 + (prod1 + bout) * p1,
{
    assert(res2 == xj - yj * q - carry + prod1 * q64 - borrow + bout * q64);
    lemma_mul_distribute_six(
        res2,
        xj,
        yj * q,
        carry,
        prod1 * q64,
        borrow,
        bout * q64,
        p,
    );
    assert((yj * q) * p == q * (yj * p)) by (nonlinear_arith);
    assert((prod1 * q64) * p == prod1 * p1 && (bout * q64) * p == bout * p1) by (nonlinear_arith)
        requires
            p1 == p * q64,
    ;
    assert(q * vy1 == q * vy + q * (yj * p)) by (nonlinear_arith)
        requires
            vy1 == vy + yj * p,
    ;
    assert((carry + borrow) * p == carry * p + borrow * p) by (nonlinear_arith);
    assert((prod1 + bout) * p1 == prod1 * p1 + bout * p1) by (nonlinear_arith);
}

/// Subtract `q * y` from `x` in place, where both span the same limb count
/// and the product does not exceed `x`.
fn quorem_mul_sub<const SIZE: usize>(x: &mut StackVec<SIZE>, y: &[u64], q: u64)
    requires
        old(x).wf(),
        old(x)@.len() == y@.len(),
        q * limbs_value(y@) <= limbs_value(old(x)@),
    ensures
        final(x).wf(),
        final(x)@.len() == old(x)@.len(),
        limbs_value(final(x)@) == limbs_value(old(x)@) - q * limbs_value(y@),
{
    let m = x.len();
    let mut carry: Limb = 0;
    let mut borrow: Limb = 0;
    let mut j: usize = 0;
    proof {
        assert(x@.take(0) =~= Seq::<u64>::empty());
        assert(old(x)@.take(0) =~= Seq::<u64>::empty());
        assert(y@.take(0) =~= Seq::<u64>::empty());
        assert(limbs_value(Seq::<u64>::empty()) == 0);
        assert(q * 0 == 0);
    }
    while j < m
        invariant
            x.wf(),
            j <= m,
            m == x@.len() == old(x)@.len() == y@.len(),
            borrow <= 1,
            limbs_value(x@.take(j as int)) == limbs_value(old(x)@.take(j as int)) - q
                * limbs_value(y@.take(j as int)) + (carry + borrow) * pow2((64 * j) as nat),
            forall|k: int| j <= k < m ==> x@[k] == old(x)@[k],
        decreases m - j,
    {
        let xj = x.get_limb(j);
        let yj = y[j];
        let prod = scalar_mul(yj, q, carry);
        let res = scalar_sub(xj, prod.0);
        let res2 = scalar_sub(res.0, borrow);
        let ghost prev = x@;
        x.set_limb(j, res2.0);
        proof {
            lemma2_to64();
            assert(!(res.1 && res2.1));
            let p = pow2((64 * j) as nat) as int;
            let p1 = pow2((64 * (j + 1)) as nat) as int;
            let q64 = pow2(64) as int;
            lemma_limbs_value_update(prev, j as int, res2.0);
            lemma_pow2_adds((64 * j) as nat, 64);
            lemma_limbs_value_take_succ(old(x)@, j as int);
            lemma_limbs_value_take_succ(y@, j as int);
            assert(x@.take(j as int) =~= prev.take(j as int));
            lemma_limbs_value_take_succ(x@, j as int);
            let bout: int = if res.1 || res2.1 {
                1int
            } else {
                0int
            };
            let va = limbs_value(x@.take(j as int)) as int;
            let va1 = limbs_value(x@.take(j + 1)) as int;
            let vo = limbs_value(old(x)@.take(j as int)) as int;
            let vo1 = limbs_value(old(x)@.take(j + 1)) as int;
            let vy = limbs_value(y@.take(j as int)) as int;
            let vy1 = limbs_value(y@.take(j + 1)) as int;
            lemma_quorem_step(
                va1, va, vo, vo1, vy, vy1, xj as int, yj as int, q as int, carry as int,
                borrow as int, p, p1, q64, prod.0 as int, prod.1 as int, res2.0 as int, bout,
            );
        }
        carry = prod.1;
        borrow = if res.1 || res2.1 {
            1
        } else {
            0
        };
        j = j + 1;
    }
    proof {
        assert(x@.take(m as int) =~= x@);
        assert(old(x)@.take(m as int) =~= old(x)@);
        assert(y@.take(m as int) =~= y@);
        // No carry or borrow can survive the top limb: the result and the
        // exact difference both lie below the same power of two.
        lemma_limbs_value_bound(x@);
        lemma_limbs_value_bound(old(x)@);
        if carry + borrow > 0 {
            vstd::arithmetic::mul::lemma_mul_increases(
                (carry + borrow) as int,
                pow2((64 * m) as nat) as int,
            );
            assert(false);
        }
    }
}

/// Divide `x` by `y` in place, leaving the remainder in `x` and returning
/// the quotient, which fits in one limb.  The divisor spans at least as many
/// limbs as the dividend and its top limb lies in `[2^32, 2^63)`, so the
/// quotient estimate from the top limbs is off by at most one.
pub fn large_quorem<const SIZE: usize>(x: &mut StackVec<SIZE>, y: &[u64]) -> (q: Limb)
    requires
        old(x).wf(),
        limbs_normalized(old(x)@),
        limbs_normalized(y@),
        1 <= y@.len(),
        old(x)@.len() <= y@.len(),
        0x1_0000_0000 <= y@[y@.len() - 1] < 0x8000_0000_0000_0000,
    ensures
        final(x).wf(),
        limbs_normalized(final(x)@),
        q * limbs_value(y@) + limbs_value(final(x)@) == limbs_value(old(x)@),
        limbs_value(final(x)@) < limbs_value(y@),
        q == limbs_value(old(x)@) / limbs_value(y@),
        limbs_value(final(x)@) == limbs_value(old(x)@) % limbs_value(y@),
        final(x)@.len() <= y@.len(),
{
    let ghost vx = limbs_value(old(x)@) as int;
    let ghost vy = limbs_value(y@) as int;
    proof {
        lemma_limbs_value_lower(y@);
        lemma_pow2_pos((64 * (y@.len() - 1)) as nat);
        assert(vy > 0);
    }
    let m = x.len();
    let n = y.len();
    if m < n {
        proof {
            lemma_limbs_value_shorter_lt(old(x)@, y@);
            assert(0int * vy == 0);
            lemma_fundamental_div_mod_converse(vx, vy, 0, vx);
        }
        return 0;
    }
    let xm_1 = x.get_limb(m - 1);
    let yn_1 = y[n - 1];
    let q0 = xm_1 / (yn_1 + 1);
    let ghost pm = pow2((64 * (m - 1)) as nat) as int;
    proof {
        lemma2_to64();
        lemma_fundamental_div_mod(xm_1 as int, yn_1 as int + 1);
        lemma_mod_division_less_than_divisor(xm_1 as int, yn_1 as int + 1);
        lemma_div_pos_is_pos(xm_1 as int, yn_1 as int + 1);
        // Decompose the dividend and divisor around their top limbs.
        lemma_limbs_value_split(old(x)@, m - 1);
        assert(old(x)@.skip(m - 1) =~= seq![xm_1]);
        lemma_limbs_value_single(xm_1);
        lemma_limbs_value_bound(old(x)@.take(m - 1));
        lemma_limbs_value_split(y@, n - 1);
        assert(y@.skip(n - 1) =~= seq![yn_1]);
        lemma_limbs_value_single(yn_1);
        lemma_limbs_value_bound(y@.take(n - 1));
        let xlow = limbs_value(old(x)@.take(m - 1)) as int;
        let ylow = limbs_value(y@.take(n - 1)) as int;
        // The estimate never exceeds the true quotient, and the true
        // quotient exceeds it by at most one.
        assert(q0 * vy <= vx && vx < (q0 + 2) * vy && q0 < 0x1_0000_0000) by (nonlinear_arith)
            requires
                vx == xlow + pm * xm_1,
                vy == ylow + pm * yn_1,
                0 <= xlow < pm,
                0 <= ylow < pm,
                xm_1 == q0 * (yn_1 + 1) + (xm_1 as int % (yn_1 as int + 1)),
                0 <= xm_1 as int % (yn_1 as int + 1) <= yn_1,
                0x1_0000_0000 <= yn_1,
                xm_1 < 0x1_0000_0000_0000_0000,
                q0 >= 0,
                pm > 0,
        ;
    }
    let mut q = q0;
    if q != 0 {
        proof {
            vstd::arithmetic::mul::lemma_mul_is_commutative(q as int, vy);
        }
        quorem_mul_sub(x, y, q);
    }
    x.normalize();
    let ord = compare(x.as_slice(), y);
    let is_less = matches!(ord, core::cmp::Ordering::Less);
    if !is_less {
        proof {
            assert(limbs_value(x@) >= vy);
        }
        q = q + 1;
        large_sub(x, y);
    }
    proof {
        lemma_mul_is_distributive_add_other_way(vy, q0 as int, 1int);
        lemma_mul_is_distributive_add_other_way(vy, q0 as int + 1, 1int);
        assert(limbs_value(x@) == vx - q * vy);
        assert(limbs_value(x@) < vy);
        lemma_fundamental_div_mod_converse(
            vx,
            vy,
            q as int,
            limbs_value(x@) as int,
        );
    }
    proof {
        // The remainder spans no more limbs than the divisor.
        if x@.len() > y@.len() {
            lemma_limbs_value_lower(x@);
            lemma_limbs_value_bound(y@);
            if 64 * y@.len() < 64 * (x@.len() - 1) {
                lemma_pow2_strictly_increases((64 * y@.len()) as nat, (64 * (x@.len() - 1)) as nat);
            }
            assert(false);
        }
    }
    q
}


} // verus!
