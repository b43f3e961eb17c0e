//! Line-segment rasterization: DDA, Bresenham and midpoint walks.
//!
//! All three algorithms produce one point per driving-axis step, from one
//! endpoint to the other inclusive. Each is specified by a closed form: the
//! DDA point is the start plus the rounded `k`-th fraction of the deltas,
//! and the error-accumulation walks place the minor axis at a rounded-up
//! quotient of the accumulated cross products.

use vstd::prelude::*;
use crate::RasterPoint;
use crate::point_in_range;
use crate::point_pair;
use crate::pts_view;
use crate::math::abs_val;
use crate::math::div_ceil;
use crate::math::div_round_half;
use crate::math::round_div;
use crate::math::lemma_div_ceil_unique;
use crate::math::lemma_div_round_half_bounds;
use crate::math::lemma_div_round_half_exact;
use crate::math::lemma_div_round_half_neg;
use crate::math::lemma_mul_unit;
use crate::normalize::DEFAULT_RES_X;
use crate::normalize::DEFAULT_RES_Y;
use crate::normalize::Ratio;
use crate::normalize::normalize_points;

verus! {

/// The incremental algorithm a line segment is rasterized with.
#[derive(Clone, Copy, PartialEq, Eq, Structural, Debug)]
pub enum LineAlgorithm {
    DDA,
    Bresenham,
    Midpoint,
}

/// The unit step of a coordinate walking from `c0` towards `c1`; a
/// coordinate that does not move is assigned the negative step, which is
/// then only ever multiplied by zero.
pub open spec fn step_sign(c0: int, c1: int) -> int {
    if c0 < c1 {
        1
    } else {
        -1
    }
}

/// Minor-axis offset after `i` driving steps of an error walk whose error
/// starts at half the driving delta `maj` and accumulates the minor delta
/// `min`.
pub open spec fn minor_offset(maj: int, min: int, i: int) -> int {
    div_ceil(2 * min * i - maj, 2 * maj)
}

/// Minor-axis offset of the midpoint walk when the y-axis drives: its
/// error starts from the minor delta rather than the driving one, so its
/// rounding bias differs from the Bresenham walk on steep segments. The
/// asymmetry is part of the observable behaviour and is kept.
pub open spec fn midpoint_minor_offset(maj: int, min: int, i: int) -> int {
    div_ceil(2 * min * i - min, 2 * maj)
}

/// The DDA rasterization: `steps = max(|dx|, |dy|)` positions beyond the
/// start, each coordinate the rounded exact fraction `k * delta / steps`.
/// Coincident endpoints short-circuit to the single starting point.
pub open spec fn dda_raster(p0: (int, int), p1: (int, int)) -> Seq<(int, int)> {
    let dx = p1.0 - p0.0;
    let dy = p1.1 - p0.1;
    let steps = if abs_val(dx) > abs_val(dy) {
        abs_val(dx)
    } else {
        abs_val(dy)
    };
    if steps == 0 {
        seq![p0]
    } else {
        Seq::new(
            (steps + 1) as nat,
            |k: int|
                (
                    p0.0 + div_round_half(k * dx, steps),
                    p0.1 + div_round_half(k * dy, steps),
                ),
        )
    }
}

/// The Bresenham rasterization: the larger delta drives, the error starts
/// at half the driving delta, and the minor axis follows the rounded-up
/// quotient of the accumulated deltas.
pub open spec fn bresenham_raster(p0: (int, int), p1: (int, int)) -> Seq<(int, int)> {
    let dx = abs_val(p1.0 - p0.0);
    let dy = abs_val(p1.1 - p0.1);
    let sx = step_sign(p0.0, p1.0);
    let sy = step_sign(p0.1, p1.1);
    if dx > dy {
        Seq::new(
            (dx + 1) as nat,
            |i: int| (p0.0 + sx * i, p0.1 + sy * minor_offset(dx, dy, i)),
        )
    } else if dy > 0 {
        Seq::new(
            (dy + 1) as nat,
            |i: int| (p0.0 + sx * minor_offset(dy, dx, i), p0.1 + sy * i),
        )
    } else {
        seq![p0]
    }
}

/// The midpoint rasterization. When the x-axis drives it coincides with
/// the Bresenham walk; when the y-axis drives, the initial error term is
/// taken from the minor delta (see [`midpoint_minor_offset`]).
pub open spec fn midpoint_raster(p0: (int, int), p1: (int, int)) -> Seq<(int, int)> {
    let dx = abs_val(p1.0 - p0.0);
    let dy = abs_val(p1.1 - p0.1);
    let sx = step_sign(p0.0, p1.0);
    let sy = step_sign(p0.1, p1.1);
    if dy >= dx {
        if dy == 0 {
            seq![p0]
        } else {
            Seq::new(
                (dy + 1) as nat,
                |i: int| (p0.0 + sx * midpoint_minor_offset(dy, dx, i), p0.1 + sy * i),
            )
        }
    } else {
        Seq::new(
            (dx + 1) as nat,
            |i: int| (p0.0 + sx * i, p0.1 + sy * minor_offset(dx, dy, i)),
        )
    }
}

/// The point sequence produced for the given endpoints by the chosen
/// algorithm.
pub open spec fn line_raster(p0: (int, int), p1: (int, int), algo: LineAlgorithm) -> Seq<
    (int, int),
> {
    match algo {
        LineAlgorithm::DDA => dda_raster(p0, p1),
        LineAlgorithm::Bresenham => bresenham_raster(p0, p1),
        LineAlgorithm::Midpoint => midpoint_raster(p0, p1),
    }
}

/// A line segment between two integer raster endpoints, rasterized on
/// construction by the chosen algorithm.
pub struct Line {
    points: Vec<RasterPoint>,
    x1: (i32, i32),
    x2: (i32, i32),
}

impl View for Line {
    type V = Seq<(int, int)>;

    /// The ordered point sequence, from the first endpoint to the second.
    closed spec fn view(&self) -> Seq<(int, int)> {
        pts_view(self.points@)
    }
}

impl Line {
    /// The first endpoint.
    pub closed spec fn p0_spec(&self) -> (int, int) {
        (self.x1.0 as int, self.x1.1 as int)
    }

    /// The second endpoint.
    pub closed spec fn p1_spec(&self) -> (int, int) {
        (self.x2.0 as int, self.x2.1 as int)
    }

    /// All stored raster points are in coordinate range.
    pub closed spec fn wf(&self) -> bool {
        forall|i: int| 0 <= i < self.points@.len() ==> point_in_range(#[trigger] self.points@[i])
    }

    /// Rasterizes the segment from `x1` to `x2` with the chosen algorithm.
    ///
    /// The sequence always starts at the first endpoint and ends at the
    /// second, and coincident endpoints yield exactly one point.
    pub fn new(x1: (i32, i32), x2: (i32, i32), algo: LineAlgorithm) -> (line: Line)
        ensures
            line@ == line_raster(
                (x1.0 as int, x1.1 as int),
                (x2.0 as int, x2.1 as int),
                algo,
            ),
            line@.len() >= 1,
            line@[0] == (x1.0 as int, x1.1 as int),
            line@[line@.len() - 1] == (x2.0 as int, x2.1 as int),
            x1 == x2 ==> line@.len() == 1,
            line.wf(),
            line.p0_spec() == (x1.0 as int, x1.1 as int),
            line.p1_spec() == (x2.0 as int, x2.1 as int),
    {
        let points = match algo {
            LineAlgorithm::DDA => Self::generate_dda_line(x1, x2),
            LineAlgorithm::Bresenham => Self::generate_bresenham_line(x1, x2),
            LineAlgorithm::Midpoint => Self::generate_midpoint_line(x1, x2),
        };
        proof {
            let p0 = (x1.0 as int, x1.1 as int);
            let p1 = (x2.0 as int, x2.1 as int);
            match algo {
                LineAlgorithm::DDA => lemma_dda_endpoints(p0, p1),
                LineAlgorithm::Bresenham => lemma_bresenham_endpoints(p0, p1),
                LineAlgorithm::Midpoint => lemma_midpoint_endpoints(p0, p1),
            }
        }
        Line { points, x1, x2 }
    }

    /// Walks `steps = max(|dx|, |dy|)` equal increments from the first
    /// endpoint, rounding every intermediate position to the nearest
    /// integer; coincident endpoints short-circuit to a single point.
    #[verifier::loop_isolation(false)]
    fn generate_dda_line(a: (i32, i32), b: (i32, i32)) -> (points: Vec<RasterPoint>)
        ensures
            pts_view(points@) == dda_raster((a.0 as int, a.1 as int), (b.0 as int, b.1 as int)),
            forall|i: int| 0 <= i < points@.len() ==> point_in_range(#[trigger] points@[i]),
    {
        let ghost p0 = (a.0 as int, a.1 as int);
        let ghost p1 = (b.0 as int, b.1 as int);
        let ghost goal = dda_raster(p0, p1);
        let x0: i64 = a.0 as i64;
        let y0: i64 = a.1 as i64;
        let dx: i64 = b.0 as i64 - x0;
        let dy: i64 = b.1 as i64 - y0;
        let adx: i64 = if dx < 0 {
            -dx
        } else {
            dx
        };
        let ady: i64 = if dy < 0 {
            -dy
        } else {
            dy
        };
        let steps: i64 = if adx > ady {
            adx
        } else {
            ady
        };

        let mut points: Vec<RasterPoint> = Vec::new();
        points.push(RasterPoint { x: x0, y: y0 });
        if steps == 0 {
            proof {
                assert(pts_view(points@) =~= goal);
            }
            return points;
        }
        proof {
            assert(0 * (dx as int) == 0) by (nonlinear_arith);
            assert(0 * (dy as int) == 0) by (nonlinear_arith);
            assert(0 * (steps as int) == 0) by (nonlinear_arith);
            lemma_div_round_half_exact(0, steps as int);
            assert(point_pair(points@[0]) == goal[0]);
        }
        let mut k: i64 = 1;
        while k <= steps
            invariant
                1 <= k,
                k <= steps + 1,
                points@.len() == k,
                forall|i: int| 0 <= i < k ==> point_pair(#[trigger] points@[i]) == goal[i],
                forall|i: int| 0 <= i < points@.len() ==> point_in_range(#[trigger] points@[i]),
            decreases steps + 1 - k,
        {
            proof {
                assert(-0x1_0000_0000_0000_0000_0000 <= k as int * dx as int
                    <= 0x1_0000_0000_0000_0000_0000) by (nonlinear_arith)
                    requires
                        0 <= k as int <= 0x2_0000_0000,
                        -0x2_0000_0000 <= dx as int <= 0x2_0000_0000,
                ;
                assert(-0x1_0000_0000_0000_0000_0000 <= k as int * dy as int
                    <= 0x1_0000_0000_0000_0000_0000) by (nonlinear_arith)
                    requires
                        0 <= k as int <= 0x2_0000_0000,
                        -0x2_0000_0000 <= dy as int <= 0x2_0000_0000,
                ;
            }
            let ox: i128 = round_div(k as i128 * dx as i128, steps as i128);
            let oy: i128 = round_div(k as i128 * dy as i128, steps as i128);
            proof {
                lemma_div_round_half_scaled(k as int, dx as int, steps as int);
                lemma_div_round_half_scaled(k as int, dy as int, steps as int);
            }
            let px: i64 = x0 + ox as i64;
            let py: i64 = y0 + oy as i64;
            points.push(RasterPoint { x: px, y: py });
            k = k + 1;
        }
        proof {
            assert(pts_view(points@) =~= goal);
        }
        points
    }

    /// Classic error-accumulation Bresenham walk: the larger delta drives,
    /// the error starts at half the driving delta (kept doubled here so the
    /// arithmetic stays integral) and a negative error steps the minor axis.
    #[verifier::loop_isolation(false)]
    #[verifier::rlimit(60)]
    fn generate_bresenham_line(a: (i32, i32), b: (i32, i32)) -> (points: Vec<RasterPoint>)
        ensures
            pts_view(points@) == bresenham_raster(
                (a.0 as int, a.1 as int),
                (b.0 as int, b.1 as int),
            ),
            forall|i: int| 0 <= i < points@.len() ==> point_in_range(#[trigger] points@[i]),
    {
        let ghost p0 = (a.0 as int, a.1 as int);
        let ghost p1 = (b.0 as int, b.1 as int);
        let ghost goal = bresenham_raster(p0, p1);
        let x0: i64 = a.0 as i64;
        let y0: i64 = a.1 as i64;
        let x1: i64 = b.0 as i64;
        let y1: i64 = b.1 as i64;
        let dx: i64 = if x1 > x0 {
            x1 - x0
        } else {
            x0 - x1
        };
        let dy: i64 = if y1 > y0 {
            y1 - y0
        } else {
            y0 - y1
        };
        let sx: i64 = if x0 < x1 {
            1
        } else {
            -1
        };
        let sy: i64 = if y0 < y1 {
            1
        } else {
            -1
        };
        let ghost dxi = dx as int;
        let ghost dyi = dy as int;
        let ghost sxi = sx as int;
        let ghost syi = sy as int;
        let mut x: i64 = x0;
        let mut y: i64 = y0;
        let mut points: Vec<RasterPoint> = Vec::new();

        if dx > dy {
            let mut e: i64 = dx;
            let ghost mut kk = 0int;
            let ghost mut mm = 0int;
            while x != x1
                invariant
                    0 <= kk <= dxi,
                    0 <= mm <= dyi,
                    x as int == p0.0 + sxi * kk,
                    y as int == p0.1 + syi * mm,
                    e as int == dxi + 2 * dxi * mm - 2 * dyi * kk,
                    0 <= e as int,
                    (e as int) < 2 * dxi,
                    points@.len() == kk,
                    forall|i: int| 0 <= i < kk ==> point_pair(#[trigger] points@[i]) == goal[i],
                    forall|i: int|
                        0 <= i < points@.len() ==> point_in_range(#[trigger] points@[i]),
                decreases dxi - kk,
            {
                proof {
                    lemma_mul_unit(sxi, kk);
                    lemma_mul_unit(syi, mm);
                    if kk == dxi {
                        lemma_mul_unit(sxi, dxi);
                        assert(false);
                    }
                    lemma_div_ceil_unique(2 * dyi * kk - dxi, 2 * dxi, mm);
                    assert(goal[kk] == (x as int, y as int));
                }
                points.push(RasterPoint { x, y });
                e = e - 2 * dy;
                proof {
                    kk = kk + 1;
                    assert(2 * dyi * kk == 2 * dyi * (kk - 1) + 2 * dyi) by (nonlinear_arith);
                    assert(sxi * kk == sxi * (kk - 1) + sxi) by (nonlinear_arith);
                    lemma_mul_unit(sxi, kk);
                }
                if e < 0 {
                    y = y + sy;
                    e = e + 2 * dx;
                    proof {
                        assert(2 * dyi * kk <= 2 * dyi * dxi) by (nonlinear_arith)
                            requires
                                0 <= kk <= dxi,
                                0 <= dyi,
                        ;
                        assert(2 * dyi * dxi == 2 * dxi * dyi) by (nonlinear_arith);
                        assert(mm + 1 <= dyi) by (nonlinear_arith)
                            requires
                                2 * dxi * mm < 2 * dxi * dyi,
                                0 < dxi,
                        ;
                        mm = mm + 1;
                        assert(2 * dxi * mm == 2 * dxi * (mm - 1) + 2 * dxi) by (nonlinear_arith);
                        assert(syi * mm == syi * (mm - 1) + syi) by (nonlinear_arith);
                        lemma_mul_unit(syi, mm);
                    }
                }
                x = x + sx;
            }
            proof {
                lemma_mul_unit(sxi, kk);
                assert(kk == dxi);
                assert((2 * dxi) * dyi == 2 * dyi * dxi) by (nonlinear_arith);
                lemma_div_ceil_unique(2 * dyi * dxi - dxi, 2 * dxi, mm);
                lemma_div_ceil_unique(2 * dyi * dxi - dxi, 2 * dxi, dyi);
                lemma_mul_unit(syi, mm);
                assert(goal[kk] == (x as int, y as int));
            }
            points.push(RasterPoint { x, y });
            proof {
                assert(pts_view(points@) =~= goal);
            }
        } else {
            let mut e: i64 = dy;
            let ghost mut kk = 0int;
            let ghost mut mm = 0int;
            while y != y1
                invariant
                    0 <= kk <= dyi,
                    0 <= mm <= dxi,
                    y as int == p0.1 + syi * kk,
                    x as int == p0.0 + sxi * mm,
                    e as int == dyi + 2 * dyi * mm - 2 * dxi * kk,
                    0 <= e as int,
                    dyi > 0 ==> (e as int) < 2 * dyi,
                    dyi == 0 ==> kk == 0 && mm == 0,
                    points@.len() == kk,
                    forall|i: int| 0 <= i < kk ==> point_pair(#[trigger] points@[i]) == goal[i],
                    forall|i: int|
                        0 <= i < points@.len() ==> point_in_range(#[trigger] points@[i]),
                decreases dyi - kk,
            {
                proof {
                    lemma_mul_unit(syi, kk);
                    lemma_mul_unit(sxi, mm);
                    if dyi == 0 {
                        assert(syi * 0 == 0) by (nonlinear_arith);
                        assert(false);
                    }
                    if kk == dyi {
                        lemma_mul_unit(syi, dyi);
                        assert(false);
                    }
                    lemma_div_ceil_unique(2 * dxi * kk - dyi, 2 * dyi, mm);
                    assert(goal[kk] == (x as int, y as int));
                }
                points.push(RasterPoint { x, y });
                e = e - 2 * dx;
                proof {
                    kk = kk + 1;
                    assert(2 * dxi * kk == 2 * dxi * (kk - 1) + 2 * dxi) by (nonlinear_arith);
                    assert(syi * kk == syi * (kk - 1) + syi) by (nonlinear_arith);
                    lemma_mul_unit(syi, kk);
                }
                if e < 0 {
                    x = x + sx;
                    e = e + 2 * dy;
                    proof {
                        assert(2 * dxi * kk <= 2 * dxi * dyi) by (nonlinear_arith)
                            requires
                                0 <= kk <= dyi,
                                0 <= dxi,
                        ;
                        assert(2 * dxi * dyi == 2 * dyi * dxi) by (nonlinear_arith);
                        assert(mm + 1 <= dxi) by (nonlinear_arith)
                            requires
                                2 * dyi * mm < 2 * dyi * dxi,
                                0 < dyi,
                        ;
                        mm = mm + 1;
                        assert(2 * dyi * mm == 2 * dyi * (mm - 1) + 2 * dyi) by (nonlinear_arith);
                        assert(sxi * mm == sxi * (mm - 1) + sxi) by (nonlinear_arith);
                        lemma_mul_unit(sxi, mm);
                    }
                }
                y = y + sy;
            }
            proof {
                lemma_mul_unit(syi, kk);
                assert(kk == dyi);
                if dyi > 0 {
                    assert((2 * dyi) * dxi == 2 * dxi * dyi) by (nonlinear_arith);
                    lemma_div_ceil_unique(2 * dxi * dyi - dyi, 2 * dyi, mm);
                    lemma_div_ceil_unique(2 * dxi * dyi - dyi, 2 * dyi, dxi);
                    lemma_mul_unit(sxi, mm);
                    assert(goal[kk] == (x as int, y as int));
                }
            }
            points.push(RasterPoint { x, y });
            proof {
                assert(pts_view(points@) =~= goal);
            }
        }
        points
    }

    /// Midpoint walk: each iteration compares the error snapshot against
    /// both deltas and may advance either axis or both; the loop runs until
    /// the current point reaches the second endpoint.
    #[verifier::loop_isolation(false)]
    #[verifier::rlimit(60)]
    fn generate_midpoint_line(a: (i32, i32), b: (i32, i32)) -> (points: Vec<RasterPoint>)
        ensures
            pts_view(points@) == midpoint_raster(
                (a.0 as int, a.1 as int),
                (b.0 as int, b.1 as int),
            ),
            forall|i: int| 0 <= i < points@.len() ==> point_in_range(#[trigger] points@[i]),
    {
        let ghost p0 = (a.0 as int, a.1 as int);
        let ghost p1 = (b.0 as int, b.1 as int);
        let ghost goal = midpoint_raster(p0, p1);
        let x0: i64 = a.0 as i64;
        let y0: i64 = a.1 as i64;
        let x1: i64 = b.0 as i64;
        let y1: i64 = b.1 as i64;
        let dx: i64 = if x1 > x0 {
            x1 - x0
        } else {
            x0 - x1
        };
        let dy: i64 = if y1 > y0 {
            y1 - y0
        } else {
            y0 - y1
        };
        let sx: i64 = if x0 < x1 {
            1
        } else {
            -1
        };
        let sy: i64 = if y0 < y1 {
            1
        } else {
            -1
        };
        let ghost dxi = dx as int;
        let ghost dyi = dy as int;
        let ghost sxi = sx as int;
        let ghost syi = sy as int;
        let mut x: i64 = x0;
        let mut y: i64 = y0;
        let mut points: Vec<RasterPoint> = Vec::new();

        if dx == 0 && dy == 0 {
            // Coincident endpoints: the walk would push once and stop.
            points.push(RasterPoint { x, y });
            proof {
                assert(pts_view(points@) =~= goal);
            }
            return points;
        }

        if dy >= dx {
            let mut e: i64 = -dx;
            let ghost mut tt = 0int;
            let ghost mut mm = 0int;
            while !(x == x1 && y == y1)
                invariant
                    0 <= tt <= dyi,
                    0 <= mm <= dxi,
                    y as int == p0.1 + syi * tt,
                    x as int == p0.0 + sxi * mm,
                    e as int == -dxi + 2 * dxi * tt - 2 * dyi * mm,
                    -2 * dyi < e as int,
                    (e as int) <= 0,
                    points@.len() == tt,
                    forall|i: int| 0 <= i < tt ==> point_pair(#[trigger] points@[i]) == goal[i],
                    forall|i: int|
                        0 <= i < points@.len() ==> point_in_range(#[trigger] points@[i]),
                decreases dyi - tt,
            {
                proof {
                    lemma_mul_unit(syi, tt);
                    lemma_mul_unit(sxi, mm);
                    lemma_div_ceil_unique(2 * dxi * tt - dxi, 2 * dyi, mm);
                    if tt == dyi {
                        assert((2 * dyi) * dxi == 2 * dxi * dyi) by (nonlinear_arith);
                        lemma_div_ceil_unique(2 * dxi * dyi - dxi, 2 * dyi, dxi);
                        lemma_mul_unit(sxi, dxi);
                        lemma_mul_unit(syi, dyi);
                        assert(false);
                    }
                    assert(goal[tt] == (x as int, y as int));
                }
                points.push(RasterPoint { x, y });
                let ghost tt_head = tt;
                let ghost mm_head = mm;
                let e2: i64 = e;
                if e2 > -(2 * dx) {
                    e = e - 2 * dy;
                    x = x + sx;
                    proof {
                        assert(dxi > 0);
                        assert(2 * dxi * tt_head <= 2 * dxi * (dyi - 1)) by (nonlinear_arith)
                            requires
                                tt_head <= dyi - 1,
                                0 <= dxi,
                        ;
                        assert(2 * dxi * (dyi - 1) == 2 * dxi * dyi - 2 * dxi) by (nonlinear_arith);
                        assert(2 * dxi * dyi == 2 * dyi * dxi) by (nonlinear_arith);
                        assert(mm_head + 1 <= dxi) by (nonlinear_arith)
                            requires
                                2 * dyi * mm_head < 2 * dyi * dxi,
                                0 < dyi,
                        ;
                        mm = mm + 1;
                        assert(2 * dyi * mm == 2 * dyi * (mm - 1) + 2 * dyi) by (nonlinear_arith);
                        assert(sxi * mm == sxi * (mm - 1) + sxi) by (nonlinear_arith);
                        lemma_mul_unit(sxi, mm);
                    }
                }
                if e2 < 2 * dy {
                    e = e + 2 * dx;
                    y = y + sy;
                    proof {
                        tt = tt + 1;
                        assert(2 * dxi * tt == 2 * dxi * (tt - 1) + 2 * dxi) by (nonlinear_arith);
                        assert(syi * tt == syi * (tt - 1) + syi) by (nonlinear_arith);
                        lemma_mul_unit(syi, tt);
                    }
                }
            }
            proof {
                lemma_mul_unit(syi, tt);
                assert(tt == dyi);
                assert((2 * dyi) * dxi == 2 * dxi * dyi) by (nonlinear_arith);
                lemma_div_ceil_unique(2 * dxi * dyi - dxi, 2 * dyi, mm);
                lemma_div_ceil_unique(2 * dxi * dyi - dxi, 2 * dyi, dxi);
                lemma_mul_unit(sxi, mm);
                assert(goal[tt] == (x as int, y as int));
            }
            points.push(RasterPoint { x, y });
            proof {
                assert(pts_view(points@) =~= goal);
            }
        } else {
            let mut e: i64 = dx;
            let ghost mut tt = 0int;
            let ghost mut mm = 0int;
            while !(x == x1 && y == y1)
                invariant
                    0 <= tt <= dxi,
                    0 <= mm <= dyi,
                    x as int == p0.0 + sxi * tt,
                    y as int == p0.1 + syi * mm,
                    e as int == dxi + 2 * dxi * mm - 2 * dyi * tt,
                    0 <= e as int,
                    (e as int) < 2 * dxi,
                    points@.len() == tt,
                    forall|i: int| 0 <= i < tt ==> point_pair(#[trigger] points@[i]) == goal[i],
                    forall|i: int|
                        0 <= i < points@.len() ==> point_in_range(#[trigger] points@[i]),
                decreases dxi - tt,
            {
                proof {
                    lemma_mul_unit(sxi, tt);
                    lemma_mul_unit(syi, mm);
                    lemma_div_ceil_unique(2 * dyi * tt - dxi, 2 * dxi, mm);
                    if tt == dxi {
                        assert((2 * dxi) * dyi == 2 * dyi * dxi) by (nonlinear_arith);
                        lemma_div_ceil_unique(2 * dyi * dxi - dxi, 2 * dxi, dyi);
                        lemma_mul_unit(syi, dyi);
                        lemma_mul_unit(sxi, dxi);
                        assert(false);
                    }
                    assert(goal[tt] == (x as int, y as int));
                }
                points.push(RasterPoint { x, y });
                let ghost tt_head = tt;
                let ghost mm_head = mm;
                let e2: i64 = e;
                if e2 > -(2 * dx) {
                    e = e - 2 * dy;
                    x = x + sx;
                    proof {
                        tt = tt + 1;
                        assert(2 * dyi * tt == 2 * dyi * (tt - 1) + 2 * dyi) by (nonlinear_arith);
                        assert(sxi * tt == sxi * (tt - 1) + sxi) by (nonlinear_arith);
                        lemma_mul_unit(sxi, tt);
                    }
                }
                if e2 < 2 * dy {
                    e = e + 2 * dx;
                    y = y + sy;
                    proof {
                        assert(2 * dyi * (tt_head + 1) == 2 * dyi * tt_head + 2 * dyi)
                            by (nonlinear_arith);
                        assert(2 * dyi * (tt_head + 1) <= 2 * dyi * dxi) by (nonlinear_arith)
                            requires
                                tt_head + 1 <= dxi,
                                0 <= dyi,
                        ;
                        assert(2 * dyi * dxi == 2 * dxi * dyi) by (nonlinear_arith);
                        assert(mm_head + 1 <= dyi) by (nonlinear_arith)
                            requires
                                2 * dxi * mm_head < 2 * dxi * dyi,
                                0 < dxi,
                        ;
                        mm = mm + 1;
                        assert(2 * dxi * mm == 2 * dxi * (mm - 1) + 2 * dxi) by (nonlinear_arith);
                        assert(syi * mm == syi * (mm - 1) + syi) by (nonlinear_arith);
                        lemma_mul_unit(syi, mm);
                    }
                }
            }
            proof {
                lemma_mul_unit(sxi, tt);
                assert(tt == dxi);
                assert((2 * dxi) * dyi == 2 * dyi * dxi) by (nonlinear_arith);
                lemma_div_ceil_unique(2 * dyi * dxi - dxi, 2 * dxi, mm);
                lemma_div_ceil_unique(2 * dyi * dxi - dxi, 2 * dxi, dyi);
                lemma_mul_unit(syi, mm);
                assert(goal[tt] == (x as int, y as int));
            }
            points.push(RasterPoint { x, y });
            proof {
                assert(pts_view(points@) =~= goal);
            }
        }
        points
    }

    /// Maps the rasterized points into clip space against the default
    /// virtual raster, six entries per vertex: normalized x and y, a zero
    /// z component, and the opaque-white colour.
    pub fn get_normalized_coordinate(&self) -> (r: Vec<Ratio>)
        requires
            self.wf(),
        ensures
            r@.len() == 6 * self@.len(),
            forall|i: int|
                0 <= i < self@.len() ==> {
                    let p = #[trigger] self@[i];
                    &&& r@[6 * i] == (Ratio { num: (p.0 - 800) as i64, den: 800 })
                    &&& r@[6 * i + 1] == (Ratio { num: (p.1 - 600) as i64, den: 600 })
                    &&& r@[6 * i + 2] == (Ratio { num: 0, den: 1 })
                    &&& r@[6 * i + 3] == (Ratio { num: 1, den: 1 })
                    &&& r@[6 * i + 4] == (Ratio { num: 1, den: 1 })
                    &&& r@[6 * i + 5] == (Ratio { num: 1, den: 1 })
                },
    {
        normalize_points(&self.points, DEFAULT_RES_X, DEFAULT_RES_Y, true)
    }

    /// The rasterized point sequence.
    pub fn points(&self) -> (r: &Vec<RasterPoint>)
        ensures
            pts_view(r@) == self@,
    {
        &self.points
    }
}

/// Bounds the rounded fraction `k * delta / steps` by `|delta|` for any
/// step index within the walk.
pub proof fn lemma_div_round_half_scaled(k: int, delta: int, steps: int)
    requires
        steps > 0,
        0 <= k <= steps,
    ensures
        abs_val(div_round_half(k * delta, steps)) <= abs_val(delta),
{
    if delta >= 0 {
        assert(k * delta >= 0) by (nonlinear_arith)
            requires
                k >= 0,
                delta >= 0,
        ;
        assert(k * delta <= delta * steps) by (nonlinear_arith)
            requires
                0 <= k <= steps,
                delta >= 0,
        ;
        lemma_div_round_half_bounds(k * delta, steps, delta);
    } else {
        assert(k * (-delta) == -(k * delta)) by (nonlinear_arith);
        assert(k * (-delta) >= 0) by (nonlinear_arith)
            requires
                k >= 0,
                delta < 0,
        ;
        assert(k * (-delta) <= (-delta) * steps) by (nonlinear_arith)
            requires
                0 <= k <= steps,
                delta < 0,
        ;
        lemma_div_round_half_bounds(k * (-delta), steps, -delta);
        lemma_div_round_half_neg(-(k * delta), steps);
    }
}

/// Whether the Bresenham error walk hits an exact tie strictly between
/// the endpoints: an interior driving step whose accumulated cross
/// product is congruent to the driving delta modulo twice the driving
/// delta. At such a step the error is exactly zero and the two walk
/// directions round to different pixels.
pub open spec fn bres_has_tie(p0: (int, int), p1: (int, int)) -> bool {
    let dx = abs_val(p1.0 - p0.0);
    let dy = abs_val(p1.1 - p0.1);
    if dx > dy {
        exists|i: int| 1 <= i < dx && (#[trigger] ((2 * dy * i) % (2 * dx))) == dx
    } else if dy > 0 {
        exists|i: int| 1 <= i < dy && (#[trigger] ((2 * dx * i) % (2 * dy))) == dy
    } else {
        false
    }
}

/// At a tie-free step index, the minor offsets of the two walk directions
/// at mirrored positions split the minor delta exactly.
proof fn lemma_minor_offset_sum(maj: int, min: int, i: int)
    requires
        maj > 0,
        min >= 0,
        0 <= i <= maj,
        (2 * min * i) % (2 * maj) != maj,
    ensures
        minor_offset(maj, min, i) + minor_offset(maj, min, maj - i) == min,
{
    crate::math::lemma_ceil_complement(min, 2 * min * i + maj, 2 * maj);
    assert(2 * min * (maj - i) - maj == min * (2 * maj) - (2 * min * i + maj))
        by (nonlinear_arith);
    crate::math::lemma_floor_ceil_shift(2 * min * i, maj);
}

/// The boundary step indices of a walk never sit at a tie.
proof fn lemma_no_tie_at_bounds(maj: int, min: int, i: int)
    requires
        maj > 0,
        min >= 0,
        i == 0 || i == maj,
    ensures
        (2 * min * i) % (2 * maj) != maj,
{
    if i == 0 {
        assert(2 * min * 0 == 0) by (nonlinear_arith);
        vstd::arithmetic::div_mod::lemma_fundamental_div_mod_converse(0, 2 * maj, 0, 0);
    } else {
        assert(2 * min * maj == min * (2 * maj) + 0) by (nonlinear_arith);
        vstd::arithmetic::div_mod::lemma_fundamental_div_mod_converse(
            2 * min * maj,
            2 * maj,
            min,
            0,
        );
    }
}

/// Swapping the endpoints of a Bresenham rasterization reverses the
/// produced sequence (the same point set in the opposite order), provided
/// the error walk never hits an exact tie between the endpoints; at a tie
/// the two directions round to different pixels and the symmetry breaks.
pub proof fn lemma_bresenham_direction_symmetry(p0: (int, int), p1: (int, int))
    requires
        !bres_has_tie(p0, p1),
    ensures
        bresenham_raster(p1, p0) == bresenham_raster(p0, p1).reverse(),
{
    let dx = abs_val(p1.0 - p0.0);
    let dy = abs_val(p1.1 - p0.1);
    let sx = step_sign(p0.0, p1.0);
    let sy = step_sign(p0.1, p1.1);
    let sxr = step_sign(p1.0, p0.0);
    let syr = step_sign(p1.1, p0.1);
    let fwd = bresenham_raster(p0, p1);
    let bwd = bresenham_raster(p1, p0);
    if dx > dy {
        assert forall|j: int| 0 <= j < dx + 1 implies bwd[j] == fwd.reverse()[j] by {
            let i = dx - j;
            if i == 0 || i == dx {
                lemma_no_tie_at_bounds(dx, dy, i);
            }
            assert((2 * dy * i) % (2 * dx) != dx);
            lemma_minor_offset_sum(dx, dy, i);
            if dy == 0 {
                assert(2 * dy * i == 0 && 2 * dy * j == 0) by (nonlinear_arith)
                    requires
                        dy == 0,
                ;
                assert((2 * dx) * 0 == 0) by (nonlinear_arith);
                lemma_div_ceil_unique(2 * dy * i - dx, 2 * dx, 0);
                lemma_div_ceil_unique(2 * dy * j - dx, 2 * dx, 0);
            }
            lemma_mul_unit(sx, i);
            lemma_mul_unit(sxr, j);
            lemma_mul_unit(sx, dx);
            lemma_mul_unit(sy, dy);
            lemma_mul_unit(sy, minor_offset(dx, dy, i));
            lemma_mul_unit(syr, minor_offset(dx, dy, j));
            assert(bwd[j] == fwd[i]);
        }
        assert(bwd =~= fwd.reverse());
    } else if dy > 0 {
        assert forall|j: int| 0 <= j < dy + 1 implies bwd[j] == fwd.reverse()[j] by {
            let i = dy - j;
            if i == 0 || i == dy {
                lemma_no_tie_at_bounds(dy, dx, i);
            }
            assert((2 * dx * i) % (2 * dy) != dy);
            lemma_minor_offset_sum(dy, dx, i);
            if dx == 0 {
                assert(2 * dx * i == 0 && 2 * dx * j == 0) by (nonlinear_arith)
                    requires
                        dx == 0,
                ;
                assert((2 * dy) * 0 == 0) by (nonlinear_arith);
                lemma_div_ceil_unique(2 * dx * i - dy, 2 * dy, 0);
                lemma_div_ceil_unique(2 * dx * j - dy, 2 * dy, 0);
            }
            lemma_mul_unit(sy, i);
            lemma_mul_unit(syr, j);
            lemma_mul_unit(sy, dy);
            lemma_mul_unit(sx, dx);
            lemma_mul_unit(sx, minor_offset(dy, dx, i));
            lemma_mul_unit(sxr, minor_offset(dy, dx, j));
            assert(bwd[j] == fwd[i]);
        }
        assert(bwd =~= fwd.reverse());
    } else {
        assert(bwd =~= fwd.reverse());
    }
}

/// A DDA rasterization starts at the first endpoint, ends at the second,
/// and collapses to a single point exactly when the endpoints coincide.
pub proof fn lemma_dda_endpoints(p0: (int, int), p1: (int, int))
    ensures
        dda_raster(p0, p1).len() >= 1,
        dda_raster(p0, p1)[0] == p0,
        dda_raster(p0, p1)[dda_raster(p0, p1).len() - 1] == p1,
        p0 == p1 <==> dda_raster(p0, p1).len() == 1,
{
    let dx = p1.0 - p0.0;
    let dy = p1.1 - p0.1;
    let s = if abs_val(dx) > abs_val(dy) {
        abs_val(dx)
    } else {
        abs_val(dy)
    };
    if s != 0 {
        assert(0 * dx == 0) by (nonlinear_arith);
        assert(0 * dy == 0) by (nonlinear_arith);
        assert(0 * s == 0) by (nonlinear_arith);
        lemma_div_round_half_exact(0, s);
        assert(s * dx == dx * s) by (nonlinear_arith);
        assert(s * dy == dy * s) by (nonlinear_arith);
        lemma_div_round_half_exact(dx, s);
        lemma_div_round_half_exact(dy, s);
    }
}

/// A Bresenham rasterization starts at the first endpoint, ends at the
/// second, and collapses to a single point exactly when they coincide.
pub proof fn lemma_bresenham_endpoints(p0: (int, int), p1: (int, int))
    ensures
        bresenham_raster(p0, p1).len() >= 1,
        bresenham_raster(p0, p1)[0] == p0,
        bresenham_raster(p0, p1)[bresenham_raster(p0, p1).len() - 1] == p1,
        p0 == p1 <==> bresenham_raster(p0, p1).len() == 1,
{
    let dx = abs_val(p1.0 - p0.0);
    let dy = abs_val(p1.1 - p0.1);
    let sx = step_sign(p0.0, p1.0);
    let sy = step_sign(p0.1, p1.1);
    lemma_mul_unit(sx, dx);
    lemma_mul_unit(sy, dy);
    assert(sx * 0 == 0) by (nonlinear_arith);
    assert(sy * 0 == 0) by (nonlinear_arith);
    if dx > dy {
        assert(2 * dy * 0 == 0) by (nonlinear_arith);
        assert((2 * dx) * 0 == 0) by (nonlinear_arith);
        lemma_div_ceil_unique(2 * dy * 0 - dx, 2 * dx, 0);
        assert((2 * dx) * dy == 2 * dy * dx) by (nonlinear_arith);
        lemma_div_ceil_unique(2 * dy * dx - dx, 2 * dx, dy);
    } else if dy > 0 {
        assert(2 * dx * 0 == 0) by (nonlinear_arith);
        assert((2 * dy) * 0 == 0) by (nonlinear_arith);
        lemma_div_ceil_unique(2 * dx * 0 - dy, 2 * dy, 0);
        assert((2 * dy) * dx == 2 * dx * dy) by (nonlinear_arith);
        lemma_div_ceil_unique(2 * dx * dy - dy, 2 * dy, dx);
    }
}

/// A midpoint rasterization starts at the first endpoint, ends at the
/// second, and collapses to a single point exactly when they coincide.
pub proof fn lemma_midpoint_endpoints(p0: (int, int), p1: (int, int))
    ensures
        midpoint_raster(p0, p1).len() >= 1,
        midpoint_raster(p0, p1)[0] == p0,
        midpoint_raster(p0, p1)[midpoint_raster(p0, p1).len() - 1] == p1,
        p0 == p1 <==> midpoint_raster(p0, p1).len() == 1,
{
    let dx = abs_val(p1.0 - p0.0);
    let dy = abs_val(p1.1 - p0.1);
    let sx = step_sign(p0.0, p1.0);
    let sy = step_sign(p0.1, p1.1);
    lemma_mul_unit(sx, dx);
    lemma_mul_unit(sy, dy);
    assert(sx * 0 == 0) by (nonlinear_arith);
    assert(sy * 0 == 0) by (nonlinear_arith);
    if dy >= dx {
        if dy > 0 {
            assert(2 * dx * 0 == 0) by (nonlinear_arith);
            assert((2 * dy) * 0 == 0) by (nonlinear_arith);
            lemma_div_ceil_unique(2 * dx * 0 - dx, 2 * dy, 0);
            assert((2 * dy) * dx == 2 * dx * dy) by (nonlinear_arith);
            lemma_div_ceil_unique(2 * dx * dy - dx, 2 * dy, dx);
        }
    } else {
        assert(2 * dy * 0 == 0) by (nonlinear_arith);
        assert((2 * dx) * 0 == 0) by (nonlinear_arith);
        lemma_div_ceil_unique(2 * dy * 0 - dx, 2 * dx, 0);
        assert((2 * dx) * dy == 2 * dy * dx) by (nonlinear_arith);
        lemma_div_ceil_unique(2 * dy * dx - dx, 2 * dx, dy);
    }
}

} // verus!
