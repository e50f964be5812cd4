//! Fixed-point sine and cosine.
//!
//! Angles are radians in the global fixed-point scale (`PI_FP` raw units are
//! half a turn).  The result is a fixed-point value clamped into
//! `[-SCALE, SCALE]`.  The defining polynomials (a truncated Taylor series on
//! a quarter turn, extended by symmetry) are spec functions, and the
//! executable code returns exactly their value.

use vstd::prelude::*;
use crate::fixed::{div_trunc, clamp_spec, div_s, clamp_i, SCALE};

verus! {

/// Half a turn, in fixed-point radians.
pub const PI_FP: i64 = 804;

/// A full turn, in fixed-point radians.
pub const TWO_PI_FP: i64 = 1608;

/// A quarter turn, in fixed-point radians.
pub const HALF_PI_FP: i64 = 402;

/// Fold of an angle into `[-PI_FP, PI_FP]` by whole turns.
pub open spec fn angle_fold(theta: int) -> int {
    let m = theta - div_trunc(theta, 1608) * 1608;
    if m > 804 {
        m - 1608
    } else if m < -804 {
        m + 1608
    } else {
        m
    }
}

/// Cosine polynomial on a quarter turn (`0 <= x <= HALF_PI_FP`).
pub open spec fn cos_quarter(x: int) -> int {
    clamp_spec(256 - (x * x) / 512 + (x * x * x * x) / 402653184, -256, 256)
}

/// Sine polynomial on a quarter turn (`0 <= x <= HALF_PI_FP`).
pub open spec fn sin_quarter(x: int) -> int {
    clamp_spec(x - (x * x * x) / 393216 + (x * x * x * x * x) / 515396075520, -256, 256)
}

/// Fixed-point cosine of any angle, via folding and quarter-turn symmetry.
pub open spec fn cos_fp(theta: int) -> int {
    let f = angle_fold(theta);
    let x = if f < 0 {
        -f
    } else {
        f
    };
    if x <= 402 {
        cos_quarter(x)
    } else {
        -cos_quarter(804 - x)
    }
}

/// Fixed-point sine of any angle, via folding and quarter-turn symmetry.
pub open spec fn sin_fp(theta: int) -> int {
    let f = angle_fold(theta);
    let x = if f < 0 {
        -f
    } else {
        f
    };
    let s = if x <= 402 {
        sin_quarter(x)
    } else {
        sin_quarter(804 - x)
    };
    if f < 0 {
        -s
    } else {
        s
    }
}

/// Fold of an angle into `[-PI_FP, PI_FP]` by whole turns.
fn fold_angle(theta: i64) -> (r: i64)
    requires
        theta > i64::MIN,
    ensures
        r == angle_fold(theta as int),
        -804 <= r <= 804,
{
    let q = div_s(theta, 1608);
    proof {
        if theta >= 0 {
            assert(q == theta as int / 1608);
            assert(0 <= theta - q * 1608 < 1608);
        } else {
            assert(q == -((-(theta as int)) / 1608));
            assert(0 <= (-(theta as int)) - ((-(theta as int)) / 1608) * 1608 < 1608);
        }
    }
    let m = theta - q * 1608;
    if m > 804 {
        m - 1608
    } else if m < -804 {
        m + 1608
    } else {
        m
    }
}

/// Cosine polynomial on a quarter turn.
fn cos_q(x: i64) -> (r: i64)
    requires
        0 <= x <= 402,
    ensures
        r == cos_quarter(x as int),
        -256 <= r <= 256,
{
    proof {
        assert(0 <= x * x <= 161604) by (nonlinear_arith)
            requires
                0 <= x <= 402,
        ;
    }
    let x2 = x * x;
    proof {
        assert(0 <= x2 * x <= 64964808) by (nonlinear_arith)
            requires
                0 <= x <= 402,
                0 <= x2 <= 161604,
        ;
        assert(0 <= x2 * x * x <= 64964808 * 402) by (nonlinear_arith)
            requires
                0 <= x <= 402,
                0 <= x2 * x <= 64964808,
        ;
    }
    let x4 = x2 * x * x;
    clamp_i(256 - x2 / 512 + x4 / 402653184, -256, 256)
}

/// Sine polynomial on a quarter turn.
fn sin_q(x: i64) -> (r: i64)
    requires
        0 <= x <= 402,
    ensures
        r == sin_quarter(x as int),
        -256 <= r <= 256,
{
    proof {
        assert(0 <= x * x <= 161604) by (nonlinear_arith)
            requires
                0 <= x <= 402,
        ;
    }
    let x2 = x * x;
    proof {
        assert(0 <= x2 * x <= 64964808) by (nonlinear_arith)
            requires
                0 <= x <= 402,
                0 <= x2 <= 161604,
        ;
    }
    let x3 = x2 * x;
    proof {
        assert(0 <= x3 * x <= 64964808 * 402) by (nonlinear_arith)
            requires
                0 <= x <= 402,
                0 <= x3 <= 64964808,
        ;
        assert(0 <= x3 * x * x <= 26115852816 * 402) by (nonlinear_arith)
            requires
                0 <= x <= 402,
                0 <= x3 * x <= 26115852816,
        ;
    }
    let x5 = x3 * x * x;
    clamp_i(x - x3 / 393216 + x5 / 515396075520, -256, 256)
}

/// Fixed-point cosine: exactly the value of the spec polynomial `cos_fp`.
pub fn cos_fixed(theta: i64) -> (r: i64)
    requires
        theta > i64::MIN,
    ensures
        r == cos_fp(theta as int),
        -SCALE <= r <= SCALE,
{
    let f = fold_angle(theta);
    let x = if f < 0 {
        -f
    } else {
        f
    };
    if x <= 402 {
        cos_q(x)
    } else {
        -cos_q(804 - x)
    }
}

/// Fixed-point sine: exactly the value of the spec polynomial `sin_fp`.
pub fn sin_fixed(theta: i64) -> (r: i64)
    requires
        theta > i64::MIN,
    ensures
        r == sin_fp(theta as int),
        -SCALE <= r <= SCALE,
{
    let f = fold_angle(theta);
    let x = if f < 0 {
        -f
    } else {
        f
    };
    let s = if x <= 402 {
        sin_q(x)
    } else {
        sin_q(804 - x)
    };
    if f < 0 {
        -s
    } else {
        s
    }
}

} // verus!
