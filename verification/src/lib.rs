//! Incremental rasterization of circles, ellipses and line segments.
//!
//! Each rasterizer turns a continuous primitive into an ordered sequence of
//! integer raster points using decision-variable stepping and symmetry, and a
//! coordinate normalizer maps raster points into clip space as exact
//! rationals.

use vstd::prelude::*;

pub mod math;
pub mod circle;
pub mod ellipse;
pub mod line;
pub mod normalize;

verus! {

/// A pixel location in raster space.
#[derive(Clone, Copy, PartialEq, Eq, Structural, Debug)]
pub struct RasterPoint {
    pub x: i64,
    pub y: i64,
}

/// The mathematical pair of coordinates a raster point stands for.
pub open spec fn point_pair(p: RasterPoint) -> (int, int) {
    (p.x as int, p.y as int)
}

/// Every coordinate a rasterizer emits stays comfortably within this bound,
/// which keeps the normalizer's subtractions far from `i64` overflow.
pub open spec fn point_in_range(p: RasterPoint) -> bool {
    &&& -0x1_0000_0000_0000 <= p.x <= 0x1_0000_0000_0000
    &&& -0x1_0000_0000_0000 <= p.y <= 0x1_0000_0000_0000
}

/// A sequence of raster points, viewed as mathematical coordinate pairs.
pub open spec fn pts_view(s: Seq<RasterPoint>) -> Seq<(int, int)> {
    Seq::new(s.len(), |i: int| point_pair(s[i]))
}

/// The geometric constraint a shape descriptor violated.
#[derive(Clone, Copy, PartialEq, Eq, Structural, Debug)]
pub enum GeometryError {
    /// A circle was described with a negative radius.
    NegativeRadius,
    /// An ellipse was described with a negative first semi-axis.
    NegativeSemiAxisA,
    /// An ellipse was described with a negative second semi-axis.
    NegativeSemiAxisB,
}

} // verus!
