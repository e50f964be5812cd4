//! 2D points and vectors in signed fixed-point coordinates, with the
//! distance, perpendicular-line-distance and rotation primitives the tree
//! generator and the shader are built on.

use vstd::prelude::*;
use crate::fixed::{
    sqrt_floor, lemma_sqrt_floor_bounds, lemma_sqrt_floor_unique, lemma_sqrt_floor_monotone,
    div_trunc, abs_spec, div_s, isqrt, COORD_MAX,
};
use crate::trig::{cos_fp, sin_fp, cos_fixed, sin_fixed};

verus! {

/// A point or displacement of the plane, in fixed-point coordinates.
#[derive(Clone, Copy, PartialEq, Eq, Structural, Debug)]
pub struct Vec2 {
    pub x: i64,
    pub y: i64,
}

/// Both coordinates lie within the geometry's coordinate bound.
pub open spec fn in_range(v: Vec2) -> bool {
    &&& -COORD_MAX <= v.x <= COORD_MAX
    &&& -COORD_MAX <= v.y <= COORD_MAX
}

/// Squared Euclidean distance between two points (exact).
pub open spec fn dist2(a: Vec2, b: Vec2) -> int {
    (a.x - b.x) * (a.x - b.x) + (a.y - b.y) * (a.y - b.y)
}

/// Fixed-point Euclidean distance: floor of the square root of `dist2`.
pub open spec fn dist_fp(a: Vec2, b: Vec2) -> int {
    sqrt_floor(dist2(a, b) as nat) as int
}

/// Twice the signed area of the triangle `(p1, p2, p)`: the cross product
/// that the perpendicular line distance is built on (exact).
pub open spec fn cross_val(p: Vec2, p1: Vec2, p2: Vec2) -> int {
    (p2.x - p1.x) * (p1.y - p.y) - (p1.x - p.x) * (p2.y - p1.y)
}

/// Fixed-point perpendicular distance from `p` to the line through `p1, p2`.
pub open spec fn line_dist_fp(p: Vec2, p1: Vec2, p2: Vec2) -> int {
    abs_spec(cross_val(p, p1, p2)) / dist_fp(p1, p2)
}

/// Rotation of `v` by the angle `theta`, using the fixed-point sine and
/// cosine polynomials (right-handed).
pub open spec fn rot_fp(v: Vec2, theta: int) -> Vec2 {
    Vec2 {
        x: div_trunc(v.x * cos_fp(theta) - v.y * sin_fp(theta), 256) as i64,
        y: div_trunc(v.x * sin_fp(theta) + v.y * cos_fp(theta), 256) as i64,
    }
}

impl Vec2 {
    /// Componentwise vector sum.
    pub fn add(self, v: Vec2) -> (r: Vec2)
        requires
            abs_spec(self.x as int) + abs_spec(v.x as int) <= i64::MAX,
            abs_spec(self.y as int) + abs_spec(v.y as int) <= i64::MAX,
        ensures
            r.x == self.x + v.x,
            r.y == self.y + v.y,
    {
        Vec2 { x: self.x + v.x, y: self.y + v.y }
    }

    /// Componentwise vector difference.
    pub fn sub(self, v: Vec2) -> (r: Vec2)
        requires
            abs_spec(self.x as int) + abs_spec(v.x as int) <= i64::MAX,
            abs_spec(self.y as int) + abs_spec(v.y as int) <= i64::MAX,
        ensures
            r.x == self.x - v.x,
            r.y == self.y - v.y,
    {
        Vec2 { x: self.x - v.x, y: self.y - v.y }
    }

    /// Scaling by a fixed-point factor, each coordinate truncating toward
    /// zero.
    pub fn mul(self, s: i64) -> (r: Vec2)
        requires
            -0x400000 <= self.x <= 0x400000,
            -0x400000 <= self.y <= 0x400000,
            -0x400000 <= s <= 0x400000,
        ensures
            r.x == div_trunc(self.x * s, 256),
            r.y == div_trunc(self.y * s, 256),
            abs_spec(r.x as int) <= abs_spec(self.x as int) * abs_spec(s as int) / 256,
            abs_spec(r.y as int) <= abs_spec(self.y as int) * abs_spec(s as int) / 256,
    {
        Vec2 { x: crate::fixed::mul_fp(self.x, s), y: crate::fixed::mul_fp(self.y, s) }
    }

    /// Euclidean distance to `p` (floor of the exact distance).
    pub fn distance(self, p: Vec2) -> (r: i64)
        requires
            in_range(self),
            in_range(p),
        ensures
            r == dist_fp(self, p),
            0 <= r <= 2965821,
            r == 0 <==> (self.x == p.x && self.y == p.y),
    {
        let dx = self.x - p.x;
        let dy = self.y - p.y;
        proof {
            assert(0 <= dx * dx <= 2097152 * 2097152) by (nonlinear_arith)
                requires
                    -2097152 <= dx <= 2097152,
            ;
            assert(0 <= dy * dy <= 2097152 * 2097152) by (nonlinear_arith)
                requires
                    -2097152 <= dy <= 2097152,
            ;
            assert(dx != 0 ==> dx * dx >= 1) by (nonlinear_arith);
            assert(dy != 0 ==> dy * dy >= 1) by (nonlinear_arith);
            assert(dx == 0 ==> dx * dx == 0) by (nonlinear_arith);
            assert(dy == 0 ==> dy * dy == 0) by (nonlinear_arith);
        }
        let s = dx * dx + dy * dy;
        let r = isqrt(s as u64);
        proof {
            lemma_sqrt_floor_bounds(s as nat);
            assert(r as int <= 2965821) by (nonlinear_arith)
                requires
                    (r as nat) * (r as nat) <= 8796093022208,
            ;
            if s as nat >= 1 {
                assert(sqrt_floor(s as nat) >= 1) by {
                    lemma_sqrt_floor_bounds(s as nat);
                    if sqrt_floor(s as nat) == 0 {
                        assert((s as nat) < (0nat + 1) * (0nat + 1));
                        assert((0nat + 1) * (0nat + 1) == 1) by (nonlinear_arith);
                    }
                }
            }
            if self.x == p.x && self.y == p.y {
                assert(s == 0);
                assert(sqrt_floor(0nat) == 0);
                assert(r == 0);
            } else {
                assert(s >= 1);
                assert(r >= 1);
            }
        }
        r as i64
    }

    /// Perpendicular distance to the infinite line through `p1` and `p2`.
    /// The two reference points must differ (a degenerate segment has no
    /// such line).
    pub fn distance_from_line(self, p1: Vec2, p2: Vec2) -> (r: i64)
        requires
            in_range(self),
            in_range(p1),
            in_range(p2),
            p1 != p2,
        ensures
            r == line_dist_fp(self, p1, p2),
            r >= 0,
    {
        let a = p2.x - p1.x;
        let b = p1.y - self.y;
        let c = p1.x - self.x;
        let d = p2.y - p1.y;
        proof {
            assert(-2097152 * 2097152 <= a * b <= 2097152 * 2097152) by (nonlinear_arith)
                requires
                    -2097152 <= a <= 2097152,
                    -2097152 <= b <= 2097152,
            ;
            assert(-2097152 * 2097152 <= c * d <= 2097152 * 2097152) by (nonlinear_arith)
                requires
                    -2097152 <= c <= 2097152,
                    -2097152 <= d <= 2097152,
            ;
        }
        let cross = a * b - c * d;
        let len = p1.distance(p2);
        let num = if cross >= 0 {
            cross
        } else {
            -cross
        };
        num / len
    }

    /// Rotation by `theta` (fixed-point radians), right-handed.  The result
    /// is exactly the spec rotation `rot_fp`, and each coordinate's
    /// magnitude is at most the sum of the input's coordinate magnitudes.
    pub fn rotate(self, theta: i64) -> (r: Vec2)
        requires
            -0x400000 <= self.x <= 0x400000,
            -0x400000 <= self.y <= 0x400000,
            theta > i64::MIN,
        ensures
            r == rot_fp(self, theta as int),
            abs_spec(r.x as int) <= abs_spec(self.x as int) + abs_spec(self.y as int),
            abs_spec(r.y as int) <= abs_spec(self.x as int) + abs_spec(self.y as int),
    {
        let c = cos_fixed(theta);
        let s = sin_fixed(theta);
        proof {
            assert(abs_spec((self.x * c) as int) <= 256 * abs_spec(self.x as int))
                by (nonlinear_arith)
                requires
                    -256 <= c <= 256,
            ;
            assert(abs_spec((self.y * s) as int) <= 256 * abs_spec(self.y as int))
                by (nonlinear_arith)
                requires
                    -256 <= s <= 256,
            ;
            assert(abs_spec((self.x * s) as int) <= 256 * abs_spec(self.x as int))
                by (nonlinear_arith)
                requires
                    -256 <= s <= 256,
            ;
            assert(abs_spec((self.y * c) as int) <= 256 * abs_spec(self.y as int))
                by (nonlinear_arith)
                requires
                    -256 <= c <= 256,
            ;
        }
        let tx = self.x * c - self.y * s;
        let ty = self.x * s + self.y * c;
        let rx = div_s(tx, 256);
        let ry = div_s(ty, 256);
        Vec2 { x: rx, y: ry }
    }
}

/// The distance between in-range points is itself in a narrow range.
pub proof fn lemma_dist_fp_bounds(a: Vec2, b: Vec2)
    requires
        in_range(a),
        in_range(b),
    ensures
        0 <= dist_fp(a, b) <= 2965821,
{
    let dx = a.x - b.x;
    let dy = a.y - b.y;
    assert(0 <= dx * dx <= 2097152 * 2097152) by (nonlinear_arith)
        requires
            -2097152 <= dx <= 2097152,
    ;
    assert(0 <= dy * dy <= 2097152 * 2097152) by (nonlinear_arith)
        requires
            -2097152 <= dy <= 2097152,
    ;
    lemma_sqrt_floor_bounds(dist2(a, b) as nat);
    let r = sqrt_floor(dist2(a, b) as nat);
    assert(r <= 2965821) by (nonlinear_arith)
        requires
            r * r <= 8796093022208,
    ;
}

/// The distance between two points does not depend on their order.
pub proof fn lemma_distance_symmetric(a: Vec2, b: Vec2)
    ensures
        dist_fp(a, b) == dist_fp(b, a),
{
    assert(dist2(a, b) == dist2(b, a)) by (nonlinear_arith);
}

/// The distance from a point to itself is zero.
pub proof fn lemma_distance_self_zero(a: Vec2)
    ensures
        dist_fp(a, a) == 0,
{
    assert(dist2(a, a) == 0);
    assert(sqrt_floor(0) == 0);
}

} // verus!
