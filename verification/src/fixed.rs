//! Fixed-point scalar helpers: the global scale, truncating signed division,
//! integer square root, and clamping.
//!
//! A scalar with 8 fractional bits is stored in an `i64`; `SCALE` raw units
//! make one unit of length (one pixel).

use vstd::prelude::*;

verus! {

/// Raw units per unit of length: the fixed-point scale (8 fractional bits).
pub const SCALE: i64 = 256;

/// Largest coordinate magnitude the geometry may carry (4096 pixels).
pub const COORD_MAX: i64 = 1048576;

/// Floor of the square root of a natural number.
pub open spec fn sqrt_floor(n: nat) -> nat
    decreases n,
{
    if n == 0 {
        0
    } else {
        let p = sqrt_floor((n - 1) as nat);
        if (p + 1) * (p + 1) <= n {
            p + 1
        } else {
            p
        }
    }
}

/// `sqrt_floor(n)` really is the floor of the square root of `n`.
pub proof fn lemma_sqrt_floor_bounds(n: nat)
    ensures
        sqrt_floor(n) * sqrt_floor(n) <= n,
        n < (sqrt_floor(n) + 1) * (sqrt_floor(n) + 1),
    decreases n,
{
    if n == 0 {
        assert(sqrt_floor(n) == 0);
        assert(n < (sqrt_floor(n) + 1) * (sqrt_floor(n) + 1)) by (nonlinear_arith)
            requires
                n == 0,
                sqrt_floor(n) == 0,
        ;
    } else {
        lemma_sqrt_floor_bounds((n - 1) as nat);
        let p = sqrt_floor((n - 1) as nat);
        if (p + 1) * (p + 1) <= n {
            assert(sqrt_floor(n) == p + 1);
            assert(n <= (p + 1) * (p + 1));
            assert((p + 1) * (p + 1) < (p + 2) * (p + 2)) by (nonlinear_arith);
            assert(n < (p + 1 + 1) * (p + 1 + 1));
        } else {
            assert(sqrt_floor(n) == p);
        }
    }
}

/// Any `r` bracketing `n` between consecutive squares equals `sqrt_floor(n)`.
pub proof fn lemma_sqrt_floor_unique(n: nat, r: nat)
    requires
        r * r <= n,
        n < (r + 1) * (r + 1),
    ensures
        r == sqrt_floor(n),
{
    let s = sqrt_floor(n);
    lemma_sqrt_floor_bounds(n);
    if r < s {
        assert((r + 1) * (r + 1) <= s * s) by (nonlinear_arith)
            requires
                r + 1 <= s,
        ;
    }
    if s < r {
        assert((s + 1) * (s + 1) <= r * r) by (nonlinear_arith)
            requires
                s + 1 <= r,
        ;
    }
}

/// Square roots are monotone: a larger radicand has a no-smaller root.
pub proof fn lemma_sqrt_floor_monotone(a: nat, b: nat)
    requires
        a <= b,
    ensures
        sqrt_floor(a) <= sqrt_floor(b),
{
    lemma_sqrt_floor_bounds(a);
    lemma_sqrt_floor_bounds(b);
    let ra = sqrt_floor(a);
    let rb = sqrt_floor(b);
    if rb < ra {
        assert((rb + 1) * (rb + 1) <= ra * ra) by (nonlinear_arith)
            requires
                rb + 1 <= ra,
        ;
    }
}

/// Floor of the square root, by binary search over the answer.
pub fn isqrt(n: u64) -> (r: u64)
    ensures
        r == sqrt_floor(n as nat),
{
    let mut lo: u64 = 0;
    let mut hi: u64 = 4294967296;
    while lo + 1 < hi
        invariant
            lo < hi <= 4294967296,
            (lo * lo) as nat <= n as nat,
            (n as nat) < (hi as nat) * (hi as nat),
        decreases hi - lo,
    {
        let mid = lo + (hi - lo) / 2;
        assert(mid < hi);
        assert(mid * mid < 0xFFFF_FFFF_FFFF_FFFF) by (nonlinear_arith)
            requires
                mid <= 0xFFFF_FFFF,
        ;
        if mid * mid <= n {
            lo = mid;
        } else {
            hi = mid;
        }
    }
    proof {
        lemma_sqrt_floor_unique(n as nat, lo as nat);
    }
    lo
}

/// Division truncating toward zero, for a positive divisor.
pub open spec fn div_trunc(a: int, d: int) -> int {
    if a >= 0 {
        a / d
    } else {
        -((-a) / d)
    }
}

/// Truncating signed division by a positive divisor.
pub fn div_s(a: i64, d: i64) -> (r: i64)
    requires
        d > 0,
        a > i64::MIN,
    ensures
        r == div_trunc(a as int, d as int),
{
    if a >= 0 {
        a / d
    } else {
        -((-a) / d)
    }
}

/// Magnitude of an integer.
pub open spec fn abs_spec(a: int) -> int {
    if a >= 0 {
        a
    } else {
        -a
    }
}

/// Product of two fixed-point factors, rescaled (truncating toward zero).
pub open spec fn mul_fp_spec(a: int, b: int) -> int {
    div_trunc(a * b, 256)
}

/// Fixed-point multiplication: `a * b / SCALE`, truncating toward zero.
pub fn mul_fp(a: i64, b: i64) -> (r: i64)
    requires
        -0x400000 <= a <= 0x400000,
        -0x400000 <= b <= 0x400000,
    ensures
        r == mul_fp_spec(a as int, b as int),
        abs_spec(r as int) <= abs_spec(a as int) * abs_spec(b as int) / 256,
{
    proof {
        assert(-0x400000 * 0x400000 <= a * b <= 0x400000 * 0x400000) by (nonlinear_arith)
            requires
                -0x400000 <= a <= 0x400000,
                -0x400000 <= b <= 0x400000,
        ;
        assert(abs_spec((a * b) as int) == abs_spec(a as int) * abs_spec(b as int))
            by (nonlinear_arith);
    }
    let p = a * b;
    div_s(p, 256)
}

/// Clamp of an integer into the interval `[lo, hi]`.
pub open spec fn clamp_spec(a: int, lo: int, hi: int) -> int {
    if a < lo {
        lo
    } else if a > hi {
        hi
    } else {
        a
    }
}

/// Clamping into `[lo, hi]`.
pub fn clamp_i(a: i64, lo: i64, hi: i64) -> (r: i64)
    requires
        lo <= hi,
    ensures
        r == clamp_spec(a as int, lo as int, hi as int),
{
    if a < lo {
        lo
    } else if a > hi {
        hi
    } else {
        a
    }
}

} // verus!
