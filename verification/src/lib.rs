//! Procedural generation of a branching tree of line segments and its
//! rasterization into an anti-aliased grayscale/RGBA image.
//!
//! All geometry is carried in signed fixed-point coordinates with 8
//! fractional bits (one unit of length is `SCALE` = 256 raw units), so that
//! every arithmetic step of the pipeline is exact integer arithmetic and can
//! be verified.  The pipeline has two stages: recursive stochastic growth of
//! a branch hierarchy with optional leaf blobs near the tips, and a per-pixel
//! shader that turns the distance from a pixel to the nearest branch segment
//! into a smoothed coverage value.

pub mod fixed;
pub mod trig;
pub mod vec2;
pub mod rng;
pub mod color;
pub mod tree;
pub mod grow;
pub mod render;

use vstd::prelude::*;

verus! {

} // verus!
