//! The per-pixel shading primitives: the cubic smoothstep that turns a
//! distance into an anti-aliased coverage byte, the radial background
//! gradient, and RGBA pixels with alpha-over compositing.

use vstd::prelude::*;
use crate::vec2::{Vec2, dist_fp, in_range};
use crate::fixed::COORD_MAX;

verus! {

/// The cubic falloff polynomial `x^2 * (3 - 2x)` in fixed point, scaled so
/// that `x` runs over `[0, 256]` and the result over `[0, 2^24]`.
pub open spec fn smooth_poly(x: int) -> int {
    x * x * (768 - 2 * x)
}

/// Coverage of a point at distance `d` from a feature whose half-width is
/// `e`: fully opaque (255) inside the feature, fully transparent (0) beyond
/// a two-pixel falloff band, and a cubic Hermite smoothstep in between.
pub open spec fn coverage_spec(d: int, e: int) -> int {
    if d > e + 512 {
        0
    } else if d < e {
        255
    } else {
        let x = (d - e) / 2;
        255 - (255 * smooth_poly(x)) / 16777216
    }
}

/// The falloff polynomial is nonnegative and monotonically non-decreasing
/// over the band `[0, 256]`, and tops out at exactly `2^24`.
pub proof fn lemma_smooth_poly_monotone(x1: int, x2: int)
    requires
        0 <= x1 <= x2 <= 256,
    ensures
        0 <= smooth_poly(x1) <= smooth_poly(x2) <= 16777216,
{
    assert(0 <= x1 * x1 * (768 - 2 * x1)) by (nonlinear_arith)
        requires
            0 <= x1 <= 256,
    ;
    assert(x1 * x1 * (768 - 2 * x1) <= x2 * x2 * (768 - 2 * x2)) by (nonlinear_arith)
        requires
            0 <= x1 <= x2 <= 256,
    ;
    assert(x2 * x2 * (768 - 2 * x2) <= 16777216) by (nonlinear_arith)
        requires
            0 <= x2 <= 256,
    ;
}

/// Coverage always fits in a byte.
pub proof fn lemma_coverage_in_byte(d: int, e: int)
    requires
        0 <= d,
        0 <= e,
    ensures
        0 <= coverage_spec(d, e) <= 255,
{
    if !(d > e + 512) && !(d < e) {
        let x = (d - e) / 2;
        assert(0 <= x <= 256);
        lemma_smooth_poly_monotone(x, 256);
        lemma_smooth_poly_monotone(0, x);
        vstd::arithmetic::div_mod::lemma_div_is_ordered(
            255 * smooth_poly(x),
            255int * 16777216,
            16777216,
        );
        assert(0 <= (255 * smooth_poly(x)) / 16777216) by {
            vstd::arithmetic::div_mod::lemma_div_is_ordered(0, 255 * smooth_poly(x), 16777216);
        }
    }
}

/// Coverage is monotonically non-increasing as the distance grows, for a
/// fixed half-width.
pub proof fn lemma_coverage_monotone(e: int, d1: int, d2: int)
    requires
        0 <= e,
        0 <= d1 <= d2,
    ensures
        coverage_spec(d1, e) >= coverage_spec(d2, e),
{
    lemma_coverage_in_byte(d1, e);
    lemma_coverage_in_byte(d2, e);
    if !(d1 > e + 512) && !(d1 < e) && !(d2 > e + 512) && !(d2 < e) {
        let x1 = (d1 - e) / 2;
        let x2 = (d2 - e) / 2;
        vstd::arithmetic::div_mod::lemma_div_is_ordered(d1 - e, d2 - e, 2);
        lemma_smooth_poly_monotone(x1, x2);
        vstd::arithmetic::div_mod::lemma_div_is_ordered(
            255 * smooth_poly(x1),
            255 * smooth_poly(x2),
            16777216,
        );
    }
}

/// Coverage is continuous at both edges of the falloff band: it is still
/// fully opaque where the distance equals the half-width, and exactly zero
/// where the band ends.
pub proof fn lemma_coverage_boundaries(e: int)
    requires
        0 <= e,
    ensures
        coverage_spec(e, e) == 255,
        coverage_spec(e + 512, e) == 0,
{
    assert(smooth_poly(0) == 0) by (nonlinear_arith);
    assert(smooth_poly(256) == 16777216) by (nonlinear_arith);
}

/// Anti-aliased coverage of a point at distance `d` from a feature of
/// half-width `e`: exactly the value of `coverage_spec`.
pub fn coverage(d: i64, e: i64) -> (r: u8)
    requires
        0 <= d,
        0 <= e <= i64::MAX - 512,
    ensures
        r as int == coverage_spec(d as int, e as int),
{
    if d > e + 512 {
        0
    } else if d < e {
        255
    } else {
        let x = (d - e) / 2;
        proof {
            lemma_smooth_poly_monotone((d - e) / 2, 256);
            lemma_smooth_poly_monotone(0, (d - e) / 2);
            lemma_coverage_in_byte(d as int, e as int);
            assert(0 <= x * x <= 65536) by (nonlinear_arith)
                requires
                    0 <= x <= 256,
            ;
        }
        let p = x * x * (768 - 2 * x);
        let v = (255 * p) / 16777216;
        (255 - v) as u8
    }
}

/// An RGBA pixel with 8-bit channels.
#[derive(Clone, Copy, PartialEq, Eq, Structural, Debug)]
pub struct Rgba8 {
    pub r: u8,
    pub g: u8,
    pub b: u8,
    pub a: u8,
}

/// The channels of a pixel as plain integers.
pub open spec fn rgba_view(c: Rgba8) -> (int, int, int, int) {
    (c.r as int, c.g as int, c.b as int, c.a as int)
}

/// What alpha-over compositing of a foreground pixel onto a background
/// pixel yields; a function of the two pixels alone.
pub uninterp spec fn blend_of(bg: (int, int, int, int), fg: (int, int, int, int)) -> (
    int,
    int,
    int,
    int,
);

/// Relies on image::Rgba::<u8>::blend (the `Pixel` alpha compositing): a
/// fully transparent foreground leaves the background pixel unchanged, a
/// fully opaque one replaces it, and otherwise the result is standard
/// alpha-over compositing, a function of the two pixels alone.
#[verifier::external_body]
pub fn blend_over(bg: Rgba8, fg: Rgba8) -> (r: Rgba8)
    ensures
        rgba_view(r) == blend_of(rgba_view(bg), rgba_view(fg)),
        fg.a == 0 ==> r == bg,
        fg.a == 255 ==> r == fg,
{
    let mut px = image::Rgba([bg.r, bg.g, bg.b, bg.a]);
    image::Pixel::blend(&mut px, &image::Rgba([fg.r, fg.g, fg.b, fg.a]));
    Rgba8 { r: px.0[0], g: px.0[1], b: px.0[2], a: px.0[3] }
}

/// The radial background gradient's gray level at `pos`, for a canvas of
/// the given fixed-point width centered at `center`: full brightness at the
/// center, fading linearly with distance and saturating to black at 60% of
/// the canvas width.
pub open spec fn bg_scale_spec(pos: Vec2, center: Vec2, width: int) -> int {
    let mr = (width * 6) / 10;
    let t = (dist_fp(center, pos) * 255) / mr;
    if t > 255 {
        0
    } else {
        255 - t
    }
}

/// Gray level of the background gradient at `pos` (255 at the center).
pub fn background_scale(pos: Vec2, center: Vec2, width: i64) -> (r: u8)
    requires
        in_range(pos),
        in_range(center),
        2 <= width <= COORD_MAX,
    ensures
        r as int == bg_scale_spec(pos, center, width as int),
        pos == center ==> r == 255,
{
    let mr = (width * 6) / 10;
    let d = center.distance(pos);
    let t = (d * 255) / mr;
    proof {
        vstd::arithmetic::div_mod::lemma_div_is_ordered(0, d * 255, mr as int);
        assert(0 <= d * 255 <= 2965821 * 255) by (nonlinear_arith)
            requires
                0 <= d <= 2965821,
        ;
        if pos == center {
            crate::vec2::lemma_distance_self_zero(center);
            assert(d == 0 ==> (0int * 255) / (mr as int) == 0);
        }
    }
    if t > 255 {
        0
    } else {
        (255 - t) as u8
    }
}

} // verus!
