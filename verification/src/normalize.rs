//! Coordinate normalization from raster space into clip space.
//!
//! A raster point `(x, y)` maps to the clip-space position
//! `(x / rx - 1, y / ry - 1)` against a virtual raster resolution
//! `rx x ry`, and every vertex carries the fixed opaque-white colour.
//! Positions are kept as exact rationals; turning them into machine floats
//! is left to the rendering layer.

use vstd::prelude::*;
use crate::RasterPoint;
use crate::point_in_range;

verus! {

/// An exact rational value `num / den`, with a positive denominator.
#[derive(Clone, Copy, PartialEq, Eq, Structural, Debug)]
pub struct Ratio {
    pub num: i64,
    pub den: i64,
}

/// The default virtual raster width.
pub const DEFAULT_RES_X: i64 = 800;

/// The default virtual raster height.
pub const DEFAULT_RES_Y: i64 = 600;

/// Builds the flat vertex buffer for a point sequence: per point, the two
/// normalized position rationals `(x - rx) / rx` and `(y - ry) / ry`, an
/// optional zero z component, and the three opaque-white colour
/// components, giving a stride of six entries (with z) or five (without).
pub fn normalize_points(points: &Vec<RasterPoint>, res_x: i64, res_y: i64, include_z: bool) -> (r:
    Vec<Ratio>)
    requires
        0 < res_x <= 0x1_0000_0000,
        0 < res_y <= 0x1_0000_0000,
        forall|i: int| 0 <= i < points@.len() ==> point_in_range(#[trigger] points@[i]),
    ensures
        include_z ==> r@.len() == 6 * points@.len(),
        include_z ==> forall|i: int|
            0 <= i < points@.len() ==> {
                let p = #[trigger] points@[i];
                &&& r@[6 * i] == (Ratio { num: (p.x - res_x) as i64, den: res_x })
                &&& r@[6 * i + 1] == (Ratio { num: (p.y - res_y) as i64, den: res_y })
                &&& r@[6 * i + 2] == (Ratio { num: 0, den: 1 })
                &&& r@[6 * i + 3] == (Ratio { num: 1, den: 1 })
                &&& r@[6 * i + 4] == (Ratio { num: 1, den: 1 })
                &&& r@[6 * i + 5] == (Ratio { num: 1, den: 1 })
            },
        !include_z ==> r@.len() == 5 * points@.len(),
        !include_z ==> forall|i: int|
            0 <= i < points@.len() ==> {
                let p = #[trigger] points@[i];
                &&& r@[5 * i] == (Ratio { num: (p.x - res_x) as i64, den: res_x })
                &&& r@[5 * i + 1] == (Ratio { num: (p.y - res_y) as i64, den: res_y })
                &&& r@[5 * i + 2] == (Ratio { num: 1, den: 1 })
                &&& r@[5 * i + 3] == (Ratio { num: 1, den: 1 })
                &&& r@[5 * i + 4] == (Ratio { num: 1, den: 1 })
            },
{
    let mut r: Vec<Ratio> = Vec::new();
    let mut i: usize = 0;
    if include_z {
        while i < points.len()
            invariant
                0 <= i <= points@.len(),
                r@.len() == 6 * i,
                forall|j: int| 0 <= j < points@.len() ==> point_in_range(#[trigger] points@[j]),
                0 < res_x <= 0x1_0000_0000,
                0 < res_y <= 0x1_0000_0000,
                forall|j: int|
                    0 <= j < i ==> {
                        let p = #[trigger] points@[j];
                        &&& r@[6 * j] == (Ratio { num: (p.x - res_x) as i64, den: res_x })
                        &&& r@[6 * j + 1] == (Ratio { num: (p.y - res_y) as i64, den: res_y })
                        &&& r@[6 * j + 2] == (Ratio { num: 0, den: 1 })
                        &&& r@[6 * j + 3] == (Ratio { num: 1, den: 1 })
                        &&& r@[6 * j + 4] == (Ratio { num: 1, den: 1 })
                        &&& r@[6 * j + 5] == (Ratio { num: 1, den: 1 })
                    },
            decreases points@.len() - i,
        {
            let p = points[i];
            r.push(Ratio { num: p.x - res_x, den: res_x });
            r.push(Ratio { num: p.y - res_y, den: res_y });
            r.push(Ratio { num: 0, den: 1 });
            r.push(Ratio { num: 1, den: 1 });
            r.push(Ratio { num: 1, den: 1 });
            r.push(Ratio { num: 1, den: 1 });
            i = i + 1;
        }
    } else {
        while i < points.len()
            invariant
                0 <= i <= points@.len(),
                r@.len() == 5 * i,
                forall|j: int| 0 <= j < points@.len() ==> point_in_range(#[trigger] points@[j]),
                0 < res_x <= 0x1_0000_0000,
                0 < res_y <= 0x1_0000_0000,
                forall|j: int|
                    0 <= j < i ==> {
                        let p = #[trigger] points@[j];
                        &&& r@[5 * j] == (Ratio { num: (p.x - res_x) as i64, den: res_x })
                        &&& r@[5 * j + 1] == (Ratio { num: (p.y - res_y) as i64, den: res_y })
                        &&& r@[5 * j + 2] == (Ratio { num: 1, den: 1 })
                        &&& r@[5 * j + 3] == (Ratio { num: 1, den: 1 })
                        &&& r@[5 * j + 4] == (Ratio { num: 1, den: 1 })
                    },
            decreases points@.len() - i,
        {
            let p = points[i];
            r.push(Ratio { num: p.x - res_x, den: res_x });
            r.push(Ratio { num: p.y - res_y, den: res_y });
            r.push(Ratio { num: 1, den: 1 });
            r.push(Ratio { num: 1, den: 1 });
            r.push(Ratio { num: 1, den: 1 });
            i = i + 1;
        }
    }
    r
}

} // verus!
