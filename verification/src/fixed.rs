//! Fixed-point scalars.
//!
//! Every coordinate, size, velocity and time delta in this crate is an `i64`
//! counting units of `1 / SCALE` of a world unit (or second).  Addition and
//! subtraction of such scalars are the plain integer operations; the one
//! scaled operation is the product of two scalars, which must be divided by
//! `SCALE` again.  That quotient is truncated toward zero, exactly as Rust's
//! integer division truncates.

use vstd::prelude::*;

verus! {

use vstd::arithmetic::div_mod::lemma_div_is_ordered;
use vstd::arithmetic::div_mod::lemma_div_pos_is_pos;

/// Number of fixed-point units in one world unit (or one second).
pub const SCALE: i64 = 1_000_000;

/// Largest magnitude of a coordinate, size or velocity in a world handed to
/// a simulation tick.
pub const WORLD_LIMIT: i64 = 1_000_000_000_000;

/// Largest magnitude of a time delta for one tick (ten seconds).
pub const DT_LIMIT: i64 = 10_000_000;

/// Largest magnitude of a coordinate, size or velocity assumed by the
/// per-tick helpers; gravity integration may have grown velocities past
/// `WORLD_LIMIT` before they run.
pub const STEP_LIMIT: i64 = 100_000_000_000_000;

/// Largest magnitude of a one-tick displacement:
/// `STEP_LIMIT * DT_LIMIT / SCALE`.
pub const DISP_LIMIT: i64 = 1_000_000_000_000_000;

/// Mathematical value of the product of two fixed-point scalars, scaled back
/// down.  The quotient is truncated toward zero, matching the executable
/// computation in [`mul_scale`].
pub open spec fn mul_scaled(a: int, b: int) -> int {
    if a * b >= 0 {
        (a * b) / (SCALE as int)
    } else {
        -((-(a * b)) / (SCALE as int))
    }
}

/// Product of two fixed-point scalars, scaled back down with truncation
/// toward zero.
pub fn mul_scale(a: i64, b: i64) -> (r: i64)
    requires
        -STEP_LIMIT <= a <= STEP_LIMIT,
        -DT_LIMIT <= b <= DT_LIMIT,
    ensures
        r == mul_scaled(a as int, b as int),
        -DISP_LIMIT <= r <= DISP_LIMIT,
{
    proof {
        lemma_mul_scaled_bound(a as int, b as int, STEP_LIMIT as int, DT_LIMIT as int);
    }
    let negative: bool = (a < 0) != (b < 0);
    let am: u64 = if a >= 0 { a as u64 } else { (-a) as u64 };
    let bm: u64 = if b >= 0 { b as u64 } else { (-b) as u64 };
    proof {
        assert(am * bm == if a * b >= 0 { a * b } else { -(a * b) }) by (nonlinear_arith)
            requires
                am == if a >= 0 { a as int } else { -(a as int) },
                bm == if b >= 0 { b as int } else { -(b as int) },
        ;
        assert(am * bm <= STEP_LIMIT * DT_LIMIT) by (nonlinear_arith)
            requires
                0 <= am <= STEP_LIMIT,
                0 <= bm <= DT_LIMIT,
        ;
        assert((a < 0) != (b < 0) ==> a * b <= 0) by (nonlinear_arith);
        assert(!((a < 0) != (b < 0)) ==> a * b >= 0) by (nonlinear_arith);
    }
    let p: u128 = (am as u128) * (bm as u128);
    let q: u128 = p / (SCALE as u128);
    proof {
        lemma_div_is_ordered(p as int, (STEP_LIMIT as int) * (DT_LIMIT as int), SCALE as int);
        assert((STEP_LIMIT as int) * (DT_LIMIT as int) / (SCALE as int) == DISP_LIMIT as int);
        if a * b == 0 {
            assert(q == 0);
        }
    }
    if negative {
        -(q as i64)
    } else {
        q as i64
    }
}

/// The scaled product of bounded scalars is bounded by the scaled product of
/// the bounds.
pub proof fn lemma_mul_scaled_bound(a: int, b: int, ma: int, mb: int)
    requires
        -ma <= a <= ma,
        -mb <= b <= mb,
        0 <= ma,
        0 < mb,
    ensures
        -(ma * mb / (SCALE as int)) <= mul_scaled(a, b) <= ma * mb / (SCALE as int),
{
    let m = if a * b >= 0 { a * b } else { -(a * b) };
    assert(0 <= m <= ma * mb) by (nonlinear_arith)
        requires
            -ma <= a <= ma,
            -mb <= b <= mb,
            m == if a * b >= 0 { a * b } else { -(a * b) },
    ;
    lemma_div_is_ordered(m, ma * mb, SCALE as int);
    lemma_div_pos_is_pos(m, SCALE as int);
}

/// A scaled product with a zero factor is zero.
pub proof fn lemma_mul_scaled_zero(b: int)
    ensures
        mul_scaled(0, b) == 0,
        mul_scaled(b, 0) == 0,
{
    assert(0int * b == 0);
    assert(b * 0int == 0);
    assert(0int / (SCALE as int) == 0);
}

} // verus!
