//! Two-region midpoint-ellipse rasterization with four-way symmetric
//! emission.
//!
//! Region 1 steps east or south-east while the arc's slope magnitude stays
//! below one; region 2 then steps south or south-east until `y` reaches
//! zero. The textbook decision variables are quarter-integral, so they are
//! carried here scaled by four: the region-1 variable is exactly
//! `4 b² (x+1)² + a² (2y-1)² - 4 a² b²` and the region-2 variable exactly
//! `b² (2x+1)² + 4 a² (y-1)² - 4 a² b²`, the ellipse equation evaluated at
//! the midpoint samples.

use vstd::prelude::*;
use vstd::arithmetic::div_mod::lemma_fundamental_div_mod_converse;
use crate::GeometryError;
use crate::RasterPoint;
use crate::point_in_range;
use crate::point_pair;
use crate::pts_view;
use crate::math::pos_part;
use crate::normalize::DEFAULT_RES_X;
use crate::normalize::DEFAULT_RES_Y;
use crate::normalize::Ratio;
use crate::normalize::normalize_points;

verus! {

/// The region-1 decision variable, scaled by four: the ellipse function
/// `b² x² + a² y² - a² b²` evaluated at `(x + 1, y - 1/2)` and multiplied
/// by four.
pub open spec fn r1_decision(a2: int, b2: int, x: int, y: int) -> int {
    4 * b2 * ((x + 1) * (x + 1)) + a2 * ((2 * y - 1) * (2 * y - 1)) - 4 * a2 * b2
}

/// The region-2 decision variable, scaled by four: the ellipse function
/// evaluated at `(x + 1/2, y - 1)` and multiplied by four.
pub open spec fn r2_decision(a2: int, b2: int, x: int, y: int) -> int {
    b2 * ((2 * x + 1) * (2 * x + 1)) + 4 * a2 * ((y - 1) * (y - 1)) - 4 * a2 * b2
}

/// The points emitted by region 1 from the state `(x, y, d)`, together
/// with the state at which region 1 hands over to region 2. While
/// `a² (2y - 1) > 2 b² (x + 1)` (the slope condition, doubled to stay
/// integral), an east step keeps `y` (`d < 0`) and a south-east step
/// lowers it, `x` rising every time.
pub open spec fn ellipse_region1(a2: int, b2: int, x: int, y: int, d: int) -> (
    Seq<(int, int)>,
    int,
    int,
)
    decreases pos_part(a2 * (2 * y - 1) - 2 * b2 * (x + 1)),
    via ellipse_region1_decreases
{
    if a2 > 0 && b2 > 0 && a2 * (2 * y - 1) > 2 * b2 * (x + 1) {
        if d < 0 {
            let rest = ellipse_region1(a2, b2, x + 1, y, d + 4 * b2 * (2 * x + 3));
            (seq![(x + 1, y)] + rest.0, rest.1, rest.2)
        } else {
            let rest = ellipse_region1(
                a2,
                b2,
                x + 1,
                y - 1,
                d + 4 * b2 * (2 * x + 3) + 4 * a2 * (-2 * y + 2),
            );
            (seq![(x + 1, y - 1)] + rest.0, rest.1, rest.2)
        }
    } else {
        (Seq::empty(), x, y)
    }
}

#[via_fn]
proof fn ellipse_region1_decreases(a2: int, b2: int, x: int, y: int, d: int) {
    assert(2 * b2 * (x + 1 + 1) == 2 * b2 * (x + 1) + 2 * b2) by (nonlinear_arith);
    assert(a2 * (2 * (y - 1) - 1) == a2 * (2 * y - 1) - 2 * a2) by (nonlinear_arith);
}

/// The points emitted by region 2 from the state `(x, y, d)`: while
/// `y > 0`, a negative decision variable takes a south-east step and any
/// other takes a south step.
pub open spec fn ellipse_region2(a2: int, b2: int, x: int, y: int, d: int) -> Seq<(int, int)>
    decreases y,
{
    if y > 0 {
        if d < 0 {
            seq![(x + 1, y - 1)]
                + ellipse_region2(
                a2,
                b2,
                x + 1,
                y - 1,
                d + 4 * b2 * (2 * x + 2) + 4 * a2 * (-2 * y + 3),
            )
        } else {
            seq![(x, y - 1)] + ellipse_region2(a2, b2, x, y - 1, d + 4 * a2 * (-2 * y + 3))
        }
    } else {
        Seq::empty()
    }
}

/// Everything region 1 and region 2 emit from a region-1 state: region 2
/// starts where region 1 ends, with its decision variable recomputed
/// there.
pub open spec fn ellipse_tail(a2: int, b2: int, x: int, y: int, d: int) -> Seq<(int, int)> {
    let r1 = ellipse_region1(a2, b2, x, y, d);
    r1.0 + ellipse_region2(a2, b2, r1.1, r1.2, r2_decision(a2, b2, r1.1, r1.2))
}

/// The first-quadrant arc of the ellipse with semi-axes `a` and `b`, as
/// offsets from the centre, starting at `(0, b)`.
pub open spec fn ellipse_quadrant(a: int, b: int) -> Seq<(int, int)> {
    seq![(0int, b)] + ellipse_tail(a * a, b * b, 0, b, r1_decision(a * a, b * b, 0, b))
}

/// The `j`-th of the four reflections of the quadrant offset `p` about the
/// centre `c`, in the order the rasterizer emits them.
pub open spec fn quadrant_reflection(c: (int, int), p: (int, int), j: int) -> (int, int) {
    if j == 0 {
        (c.0 + p.0, c.1 + p.1)
    } else if j == 1 {
        (c.0 - p.0, c.1 + p.1)
    } else if j == 2 {
        (c.0 + p.0, c.1 - p.1)
    } else {
        (c.0 - p.0, c.1 - p.1)
    }
}

/// The full point sequence of a rasterized ellipse: each quadrant point in
/// generation order, replaced by its four reflections about the centre.
pub open spec fn ellipse_raster(c: (int, int), a: int, b: int) -> Seq<(int, int)> {
    Seq::new(
        (4 * ellipse_quadrant(a, b).len()) as nat,
        |k: int| quadrant_reflection(c, ellipse_quadrant(a, b)[k / 4], k % 4),
    )
}

/// An ellipse described by an integer centre and semi-axes, rasterized on
/// construction by the two-region midpoint algorithm.
pub struct Ellipse {
    points: Vec<RasterPoint>,
    centre: (i32, i32),
    a: i32,
    b: i32,
}

impl View for Ellipse {
    type V = Seq<(int, int)>;

    /// The ordered sequence of raster coordinates the ellipse emitted.
    closed spec fn view(&self) -> Seq<(int, int)> {
        pts_view(self.points@)
    }
}

impl Ellipse {
    /// The centre the ellipse was described with.
    pub closed spec fn centre_spec(&self) -> (int, int) {
        (self.centre.0 as int, self.centre.1 as int)
    }

    /// The semi-axis along x the ellipse was described with.
    pub closed spec fn a_spec(&self) -> int {
        self.a as int
    }

    /// The semi-axis along y the ellipse was described with.
    pub closed spec fn b_spec(&self) -> int {
        self.b as int
    }

    /// All stored raster points are in coordinate range.
    pub closed spec fn wf(&self) -> bool {
        forall|i: int| 0 <= i < self.points@.len() ==> point_in_range(#[trigger] self.points@[i])
    }

    /// Validates the descriptor and rasterizes the ellipse.
    ///
    /// A negative semi-axis violates the geometry invariant and is
    /// rejected, the first semi-axis being checked first; degenerate zero
    /// semi-axes are legal and emit at least the four reflections of
    /// `(0, b)`. The semi-axes are bounded so that the scaled decision
    /// arithmetic stays within `i128`.
    pub fn new(centre: (i32, i32), a: i32, b: i32) -> (result: Result<Ellipse, GeometryError>)
        requires
            a <= 0x4000_0000,
            b <= 0x4000_0000,
        ensures
            a >= 0 && b >= 0 ==> (result matches Ok(ellipse)
                && ellipse@ == ellipse_raster(
                    (centre.0 as int, centre.1 as int),
                    a as int,
                    b as int,
                )
                && ellipse@.len() >= 4
                && ellipse.wf()
                && ellipse.centre_spec() == (centre.0 as int, centre.1 as int)
                && ellipse.a_spec() == a as int
                && ellipse.b_spec() == b as int),
            a < 0 ==> result == Err::<Ellipse, GeometryError>(GeometryError::NegativeSemiAxisA),
            a >= 0 && b < 0 ==> result == Err::<Ellipse, GeometryError>(
                GeometryError::NegativeSemiAxisB,
            ),
    {
        if a < 0 {
            return Err(GeometryError::NegativeSemiAxisA);
        }
        if b < 0 {
            return Err(GeometryError::NegativeSemiAxisB);
        }
        let points = Self::generate_midpoint_ellipse(centre, a, b);
        Ok(Ellipse { points, centre, a, b })
    }

    /// Runs the two-region midpoint recurrence over the first quadrant and
    /// emits the four-way symmetric point set.
    #[verifier::loop_isolation(false)]
    #[verifier::rlimit(100)]
    fn generate_midpoint_ellipse(centre: (i32, i32), a: i32, b: i32) -> (points: Vec<
        RasterPoint,
    >)
        requires
            0 <= a <= 0x4000_0000,
            0 <= b <= 0x4000_0000,
        ensures
            pts_view(points@) == ellipse_raster(
                (centre.0 as int, centre.1 as int),
                a as int,
                b as int,
            ),
            forall|i: int| 0 <= i < points@.len() ==> point_in_range(#[trigger] points@[i]),
    {
        let ghost c = (centre.0 as int, centre.1 as int);
        let ghost quad = ellipse_quadrant(a as int, b as int);
        let cx: i64 = centre.0 as i64;
        let cy: i64 = centre.1 as i64;
        let ai: i128 = a as i128;
        let bi: i128 = b as i128;
        proof {
            assert(0 <= (ai as int) * (ai as int) <= 0x1000_0000_0000_0000) by (nonlinear_arith)
                requires
                    0 <= ai as int <= 0x4000_0000,
            ;
            assert(0 <= (bi as int) * (bi as int) <= 0x1000_0000_0000_0000) by (nonlinear_arith)
                requires
                    0 <= bi as int <= 0x4000_0000,
            ;
        }
        let a2: i128 = ai * ai;
        let b2: i128 = bi * bi;
        let ghost a2i = a2 as int;
        let ghost b2i = b2 as int;
        proof {
            assert(0 <= a2i * (bi as int) <= 0x4000_0000_0000_0000_0000_0000) by (nonlinear_arith)
                requires
                    0 <= a2i <= 0x1000_0000_0000_0000,
                    0 <= bi as int <= 0x4000_0000,
            ;
        }
        let a2b: i128 = a2 * bi;
        let mut x: i128 = 0;
        let mut y: i128 = b as i128;
        let mut d: i128 = 4 * b2 - 4 * a2b + a2;
        proof {
            lemma_r1_init(a as int, b as int, a2i, b2i);
            assert((4 * a2i) * (b as int) == 4 * (a2i * (b as int))) by (nonlinear_arith);
            assert(d as int == r1_decision(a2i, b2i, 0, b as int));
        }

        let mut points: Vec<RasterPoint> = Vec::new();
        Self::push_symmetric_points(&mut points, cx, cy, 0, b as i64);
        let ghost mut k = 1int;
        proof {
            assert(quad.take(1) =~= seq![(0int, b as int)]);
            assert(quad.take(1) + ellipse_tail(a2i, b2i, 0, b as int, d as int) =~= quad);
            assert forall|i: int| 0 <= i < points@.len() implies point_pair(points@[i])
                == quadrant_reflection(c, quad[i / 4], i % 4) by {
                lemma_fundamental_div_mod_converse(i, 4, 0, i);
            }
        }

        // Region 1: east / south-east steps while the slope magnitude
        // stays below one.
        let mut done: bool = false;
        while !done
            invariant
                done ==> a2i * (2 * (y as int) - 1) <= 2 * b2i * ((x as int) + 1),
                0 <= x,
                x as int <= a as int + (b as int - y as int) + 1,
                0 <= y,
                y as int <= b as int,
                d as int == r1_decision(a2i, b2i, x as int, y as int),
                1 <= k,
                k <= quad.len(),
                quad.take(k) + ellipse_tail(a2i, b2i, x as int, y as int, d as int) == quad,
                quad[k - 1] == (x as int, y as int),
                points@.len() == 4 * k,
                forall|i: int|
                    0 <= i < points@.len() ==> point_pair(#[trigger] points@[i])
                        == quadrant_reflection(c, quad[i / 4], i % 4),
                forall|i: int|
                    0 <= i < points@.len() ==> point_in_range(#[trigger] points@[i]),
            decreases
                pos_part(a2i * (2 * (y as int) - 1) - 2 * b2i * ((x as int) + 1)),
                (if done { 0int } else { 1int }),
        {
            proof {
                assert(-0x1_0000_0000_0000_0000_0000_0000 <= a2i * (2 * (y as int) - 1)
                    <= 0x1_0000_0000_0000_0000_0000_0000) by (nonlinear_arith)
                    requires
                        0 <= a2i <= 0x1000_0000_0000_0000,
                        -1 <= 2 * (y as int) - 1 <= 0x1_0000_0000,
                ;
                assert(0 <= 2 * b2i * ((x as int) + 1) <= 0x1_0000_0000_0000_0000_0000_0000)
                    by (nonlinear_arith)
                    requires
                        0 <= b2i <= 0x1000_0000_0000_0000,
                        0 < (x as int) + 1 <= 0x1_0000_0000,
                ;
            }
            let lhs: i128 = a2 * (2 * y - 1);
            let rhs: i128 = 2 * b2 * (x + 1);
            if !(lhs > rhs) {
                done = true;
            } else {
            let ghost x_prev = x as int;
            let ghost y_prev = y as int;
            let ghost d_prev = d as int;
            proof {
                lemma_r1_guard(a as int, b as int, a2i, b2i, x_prev, y_prev);
                lemma_r1_bounds(a2i, b2i, x_prev, y_prev);
            }
            if d < 0 {
                proof {
                    assert(0 <= 4 * b2i * (2 * x_prev + 3) <= 0x1_0000_0000_0000_0000_0000_0000)
                        by (nonlinear_arith)
                        requires
                            0 <= b2i <= 0x1000_0000_0000_0000,
                            0 <= 2 * x_prev + 3 <= 0x2_0000_0000,
                    ;
                    lemma_r1_step_e(a2i, b2i, x_prev, y_prev);
                    lemma_r1_bounds(a2i, b2i, x_prev + 1, y_prev);
                    lemma_r1_x_bound(a as int, a2i, b2i, x_prev, y_prev);
                }
                let u: i128 = 4 * b2 * (2 * x + 3);
                d = d + u;
            } else {
                proof {
                    assert(0 <= 4 * b2i * (2 * x_prev + 3) <= 0x1_0000_0000_0000_0000_0000_0000)
                        by (nonlinear_arith)
                        requires
                            0 <= b2i <= 0x1000_0000_0000_0000,
                            0 <= 2 * x_prev + 3 <= 0x2_0000_0000,
                    ;
                    assert(-0x1_0000_0000_0000_0000_0000_0000 <= 4 * a2i * (-2 * y_prev + 2)
                        <= 0x1_0000_0000_0000_0000_0000_0000) by (nonlinear_arith)
                        requires
                            0 <= a2i <= 0x1000_0000_0000_0000,
                            -0x1_0000_0000 <= -2 * y_prev + 2 <= 2,
                    ;
                    lemma_r1_step_se(a2i, b2i, x_prev, y_prev);
                    lemma_r1_bounds(a2i, b2i, x_prev + 1, y_prev - 1);
                }
                let u1: i128 = 4 * b2 * (2 * x + 3);
                let u2: i128 = 4 * a2 * (-2 * y + 2);
                d = d + u1 + u2;
                y = y - 1;
            }
            x = x + 1;
            proof {
                assert(ellipse_tail(a2i, b2i, x_prev, y_prev, d_prev) == seq![
                    (x as int, y as int),
                ] + ellipse_tail(a2i, b2i, x as int, y as int, d as int));
                assert(quad[k] == (x as int, y as int));
                assert(quad.take(k + 1) =~= quad.take(k) + seq![(x as int, y as int)]);
                assert(quad.take(k + 1) + ellipse_tail(a2i, b2i, x as int, y as int, d as int)
                    =~= quad);
            }
            Self::push_symmetric_points(&mut points, cx, cy, x as i64, y as i64);
            proof {
                k = k + 1;
                assert forall|i: int| 4 * (k - 1) <= i < 4 * k implies point_pair(points@[i])
                    == quadrant_reflection(c, quad[i / 4], i % 4) by {
                    lemma_fundamental_div_mod_converse(i, 4, k - 1, i - 4 * (k - 1));
                }
                // The decision measure shrinks with every step.
                assert(2 * b2i * ((x_prev + 1) + 1) == 2 * b2i * (x_prev + 1) + 2 * b2i)
                    by (nonlinear_arith);
                assert(a2i * (2 * (y_prev - 1) - 1) == a2i * (2 * y_prev - 1) - 2 * a2i)
                    by (nonlinear_arith);
            }
            }
        }

        // Region 2: recompute the decision variable at the hand-over state
        // and step south / south-east until `y` reaches zero.
        proof {
            lemma_r2_bounds(a2i, b2i, x as int, y as int);
        }
        let t1: i128 = 2 * x + 1;
        let t2: i128 = y - 1;
        proof {
            assert(0 <= (t1 as int) * (t1 as int) <= 0x4_0000_0000_0000_0000) by (nonlinear_arith)
                requires
                    0 < t1 as int <= 0x1_0000_0010,
            ;
            assert(0 <= (t2 as int) * (t2 as int) <= 0x1000_0000_0000_0000) by (nonlinear_arith)
                requires
                    -1 <= t2 as int <= 0x4000_0000,
            ;
            assert(0 <= b2i * ((t1 as int) * (t1 as int)) <= 0x2000_0000_0000_0000_0000_0000_0000_0000)
                by (nonlinear_arith)
                requires
                    0 <= b2i <= 0x1000_0000_0000_0000,
                    0 < t1 as int <= 0x1_0000_0010,
            ;
            assert(0 <= 4 * a2i * ((t2 as int) * (t2 as int))
                <= 0x2000_0000_0000_0000_0000_0000_0000_0000) by (nonlinear_arith)
                requires
                    0 <= a2i <= 0x1000_0000_0000_0000,
                    -1 <= t2 as int <= 0x4000_0000,
            ;
            assert(0 <= 4 * (a2i * b2i) <= 0x2000_0000_0000_0000_0000_0000_0000_0000)
                by (nonlinear_arith)
                requires
                    0 <= a2i <= 0x1000_0000_0000_0000,
                    0 <= b2i <= 0x1000_0000_0000_0000,
            ;
        }
        let s1: i128 = b2 * (t1 * t1);
        let s2: i128 = 4 * a2 * (t2 * t2);
        let s3: i128 = 4 * (a2 * b2);
        d = s1 + s2 - s3;
        proof {
            assert((4 * a2i) * b2i == 4 * (a2i * b2i)) by (nonlinear_arith);
            assert(d as int == r2_decision(a2i, b2i, x as int, y as int));
            assert(ellipse_region1(a2i, b2i, x as int, y as int, d as int).0 =~= Seq::<
                (int, int),
            >::empty());
            assert(quad.take(k) + ellipse_region2(a2i, b2i, x as int, y as int, d as int)
                =~= quad);
        }

        while y > 0
            invariant
                0 <= x,
                x as int <= a as int + b as int + 2,
                0 <= y,
                y as int <= b as int,
                d as int == r2_decision(a2i, b2i, x as int, y as int),
                1 <= k,
                k <= quad.len(),
                quad.take(k) + ellipse_region2(a2i, b2i, x as int, y as int, d as int) == quad,
                points@.len() == 4 * k,
                forall|i: int|
                    0 <= i < points@.len() ==> point_pair(#[trigger] points@[i])
                        == quadrant_reflection(c, quad[i / 4], i % 4),
                forall|i: int|
                    0 <= i < points@.len() ==> point_in_range(#[trigger] points@[i]),
            decreases y,
        {
            let ghost x_prev = x as int;
            let ghost y_prev = y as int;
            let ghost d_prev = d as int;
            proof {
                lemma_r2_bounds(a2i, b2i, x_prev, y_prev);
                assert(-0x1_0000_0000_0000_0000_0000_0000 <= 4 * a2i * (-2 * y_prev + 3)
                    <= 0x1_0000_0000_0000_0000_0000_0000) by (nonlinear_arith)
                    requires
                        0 <= a2i <= 0x1000_0000_0000_0000,
                        -0x1_0000_0000 <= -2 * y_prev + 3 <= 3,
                ;
            }
            if d < 0 {
                proof {
                    assert(0 <= 4 * b2i * (2 * x_prev + 2) <= 0x1_0000_0000_0000_0000_0000_0000)
                        by (nonlinear_arith)
                        requires
                            0 <= b2i <= 0x1000_0000_0000_0000,
                            0 <= 2 * x_prev + 2 <= 0x2_0000_0000,
                    ;
                    lemma_r2_step_se(a2i, b2i, x_prev, y_prev);
                    lemma_r2_x_bound(a as int, b as int, a2i, b2i, x_prev, y_prev);
                    lemma_r2_bounds(a2i, b2i, x_prev + 1, y_prev - 1);
                }
                let u1: i128 = 4 * b2 * (2 * x + 2);
                let u2: i128 = 4 * a2 * (-2 * y + 3);
                d = d + u1 + u2;
                x = x + 1;
            } else {
                proof {
                    lemma_r2_step_s(a2i, b2i, x_prev, y_prev);
                    lemma_r2_bounds(a2i, b2i, x_prev, y_prev - 1);
                }
                let u2: i128 = 4 * a2 * (-2 * y + 3);
                d = d + u2;
            }
            y = y - 1;
            proof {
                assert(ellipse_region2(a2i, b2i, x_prev, y_prev, d_prev) == seq![
                    (x as int, y as int),
                ] + ellipse_region2(a2i, b2i, x as int, y as int, d as int));
                assert(quad[k] == (x as int, y as int));
                assert(quad.take(k + 1) =~= quad.take(k) + seq![(x as int, y as int)]);
                assert(quad.take(k + 1) + ellipse_region2(a2i, b2i, x as int, y as int, d as int)
                    =~= quad);
            }
            Self::push_symmetric_points(&mut points, cx, cy, x as i64, y as i64);
            proof {
                k = k + 1;
                assert forall|i: int| 4 * (k - 1) <= i < 4 * k implies point_pair(points@[i])
                    == quadrant_reflection(c, quad[i / 4], i % 4) by {
                    lemma_fundamental_div_mod_converse(i, 4, k - 1, i - 4 * (k - 1));
                }
            }
        }
        proof {
            assert(quad.take(k) =~= quad);
            assert(pts_view(points@) =~= ellipse_raster(c, a as int, b as int));
        }
        points
    }

    /// Appends the four reflections of the quadrant offset `(x, y)` about
    /// the centre `(cx, cy)`, in the fixed emission order.
    fn push_symmetric_points(points: &mut Vec<RasterPoint>, cx: i64, cy: i64, x: i64, y: i64)
        requires
            -0x1_0000_0000 <= cx <= 0x1_0000_0000,
            -0x1_0000_0000 <= cy <= 0x1_0000_0000,
            0 <= x <= 0x2_0000_0000,
            0 <= y <= 0x2_0000_0000,
        ensures
            final(points)@.len() == old(points)@.len() + 4,
            forall|i: int| 0 <= i < old(points)@.len() ==> final(points)@[i] == old(points)@[i],
            forall|i: int|
                old(points)@.len() <= i < final(points)@.len()
                    ==> point_pair(#[trigger] final(points)@[i])
                        == quadrant_reflection(
                        (cx as int, cy as int),
                        (x as int, y as int),
                        i - old(points)@.len(),
                    ),
            forall|i: int|
                old(points)@.len() <= i < final(points)@.len()
                    ==> point_in_range(#[trigger] final(points)@[i]),
    {
        points.push(RasterPoint { x: cx + x, y: cy + y });
        points.push(RasterPoint { x: cx - x, y: cy + y });
        points.push(RasterPoint { x: cx + x, y: cy - y });
        points.push(RasterPoint { x: cx - x, y: cy - y });
    }

    /// Maps the rasterized points into clip space against the default
    /// virtual raster, six entries per vertex: normalized x and y, a zero
    /// z component, and the opaque-white colour.
    pub fn get_normalized_coordinate(&self) -> (r: Vec<Ratio>)
        requires
            self.wf(),
        ensures
            r@.len() == 6 * self@.len(),
            forall|i: int|
                0 <= i < self@.len() ==> {
                    let p = #[trigger] self@[i];
                    &&& r@[6 * i] == (Ratio { num: (p.0 - 800) as i64, den: 800 })
                    &&& r@[6 * i + 1] == (Ratio { num: (p.1 - 600) as i64, den: 600 })
                    &&& r@[6 * i + 2] == (Ratio { num: 0, den: 1 })
                    &&& r@[6 * i + 3] == (Ratio { num: 1, den: 1 })
                    &&& r@[6 * i + 4] == (Ratio { num: 1, den: 1 })
                    &&& r@[6 * i + 5] == (Ratio { num: 1, den: 1 })
                },
    {
        normalize_points(&self.points, DEFAULT_RES_X, DEFAULT_RES_Y, true)
    }

    /// Maps the rasterized points into clip space against the default
    /// virtual raster, five entries per vertex: normalized x and y and the
    /// opaque-white colour, with no z component.
    pub fn get_2d_normalized_coordinate(&self) -> (r: Vec<Ratio>)
        requires
            self.wf(),
        ensures
            r@.len() == 5 * self@.len(),
            forall|i: int|
                0 <= i < self@.len() ==> {
                    let p = #[trigger] self@[i];
                    &&& r@[5 * i] == (Ratio { num: (p.0 - 800) as i64, den: 800 })
                    &&& r@[5 * i + 1] == (Ratio { num: (p.1 - 600) as i64, den: 600 })
                    &&& r@[5 * i + 2] == (Ratio { num: 1, den: 1 })
                    &&& r@[5 * i + 3] == (Ratio { num: 1, den: 1 })
                    &&& r@[5 * i + 4] == (Ratio { num: 1, den: 1 })
                },
    {
        normalize_points(&self.points, DEFAULT_RES_X, DEFAULT_RES_Y, false)
    }

    /// The rasterized point sequence.
    pub fn points(&self) -> (r: &Vec<RasterPoint>)
        ensures
            pts_view(r@) == self@,
    {
        &self.points
    }

    /// The centre the ellipse was described with.
    pub fn centre(&self) -> (r: (i32, i32))
        ensures
            (r.0 as int, r.1 as int) == self.centre_spec(),
    {
        self.centre
    }
}

/// The textbook initialization `b² - a² b + a² / 4`, scaled by four, is
/// the region-1 decision variable at the starting state `(0, b)`.
proof fn lemma_r1_init(a: int, b: int, a2: int, b2: int) by (nonlinear_arith)
    requires
        a2 == a * a,
        b2 == b * b,
    ensures
        4 * b2 - 4 * a2 * b + a2 == r1_decision(a2, b2, 0, b),
{
}

/// An east step adds `4 b² (2x + 3)` to the region-1 decision variable.
proof fn lemma_r1_step_e(a2: int, b2: int, x: int, y: int)
    ensures
        r1_decision(a2, b2, x, y) + 4 * b2 * (2 * x + 3) == r1_decision(a2, b2, x + 1, y),
{
    assert(4 * b2 * ((x + 1) * (x + 1)) + 4 * b2 * (2 * x + 3) == 4 * b2 * ((x + 2) * (x + 2)))
        by (nonlinear_arith);
}

/// A south-east step adds `4 b² (2x + 3) + 4 a² (-2y + 2)` to the region-1
/// decision variable.
proof fn lemma_r1_step_se(a2: int, b2: int, x: int, y: int)
    ensures
        r1_decision(a2, b2, x, y) + 4 * b2 * (2 * x + 3) + 4 * a2 * (-2 * y + 2) == r1_decision(
            a2,
            b2,
            x + 1,
            y - 1,
        ),
{
    assert(4 * b2 * ((x + 1) * (x + 1)) + a2 * ((2 * y - 1) * (2 * y - 1)) + 4 * b2 * (2 * x + 3)
        + 4 * a2 * (-2 * y + 2) == 4 * b2 * ((x + 2) * (x + 2)) + a2 * ((2 * (y - 1) - 1) * (2 * (
    y - 1) - 1))) by (nonlinear_arith);
}

/// A south-east step adds `4 b² (2x + 2) + 4 a² (-2y + 3)` to the region-2
/// decision variable.
proof fn lemma_r2_step_se(a2: int, b2: int, x: int, y: int)
    ensures
        r2_decision(a2, b2, x, y) + 4 * b2 * (2 * x + 2) + 4 * a2 * (-2 * y + 3) == r2_decision(
            a2,
            b2,
            x + 1,
            y - 1,
        ),
{
    assert(b2 * ((2 * x + 1) * (2 * x + 1)) + 4 * a2 * ((y - 1) * (y - 1)) + 4 * b2 * (2 * x + 2)
        + 4 * a2 * (-2 * y + 3) == b2 * ((2 * (x + 1) + 1) * (2 * (x + 1) + 1)) + 4 * a2 * (((y
        - 1) - 1) * ((y - 1) - 1))) by (nonlinear_arith);
}

/// A south step adds `4 a² (-2y + 3)` to the region-2 decision variable.
proof fn lemma_r2_step_s(a2: int, b2: int, x: int, y: int)
    ensures
        r2_decision(a2, b2, x, y) + 4 * a2 * (-2 * y + 3) == r2_decision(a2, b2, x, y - 1),
{
    assert(4 * a2 * ((y - 1) * (y - 1)) + 4 * a2 * (-2 * y + 3) == 4 * a2 * (((y - 1) - 1) * ((y
        - 1) - 1))) by (nonlinear_arith);
}

/// The region-1 slope condition forces positive squared semi-axes and a
/// positive `y`.
proof fn lemma_r1_guard(a: int, b: int, a2: int, b2: int, x: int, y: int) by (nonlinear_arith)
    requires
        a2 == a * a,
        b2 == b * b,
        a >= 0,
        b >= 0,
        0 <= x,
        0 <= y <= b,
        a2 * (2 * y - 1) > 2 * b2 * (x + 1),
    ensures
        a2 > 0,
        b2 > 0,
        y >= 1,
{
}

/// While the decision variable is negative in region 1, the next east
/// step stays strictly inside the horizontal extent.
proof fn lemma_r1_x_bound(a: int, a2: int, b2: int, x: int, y: int) by (nonlinear_arith)
    requires
        a2 == a * a,
        a >= 0,
        b2 > 0,
        x >= 0,
        r1_decision(a2, b2, x, y) < 0,
    ensures
        x + 1 <= a,
{
}

/// While the decision variable is negative in region 2, the next
/// south-east step stays within the horizontal extent.
proof fn lemma_r2_x_bound(a: int, b: int, a2: int, b2: int, x: int, y: int) by (nonlinear_arith)
    requires
        a2 == a * a,
        b2 == b * b,
        a >= 0,
        b >= 0,
        x >= 0,
        r2_decision(a2, b2, x, y) < 0,
    ensures
        x + 1 <= a,
{
}

/// The region-1 decision variable stays far from the `i128` limits for
/// bounded states.
proof fn lemma_r1_bounds(a2: int, b2: int, x: int, y: int) by (nonlinear_arith)
    requires
        0 <= a2 <= 0x1000_0000_0000_0000,
        0 <= b2 <= 0x1000_0000_0000_0000,
        0 <= x <= 0x8000_0010,
        0 <= y <= 0x4000_0000,
    ensures
        -0x2000_0000_0000_0000_0000_0000_0000_0000 <= r1_decision(a2, b2, x, y)
            <= 0x2000_0000_0000_0000_0000_0000_0000_0000,
{
}

/// The region-2 decision variable stays far from the `i128` limits for
/// bounded states.
proof fn lemma_r2_bounds(a2: int, b2: int, x: int, y: int) by (nonlinear_arith)
    requires
        0 <= a2 <= 0x1000_0000_0000_0000,
        0 <= b2 <= 0x1000_0000_0000_0000,
        0 <= x <= 0x8000_0010,
        0 <= y <= 0x4000_0000,
    ensures
        -0x2000_0000_0000_0000_0000_0000_0000_0000 <= r2_decision(a2, b2, x, y)
            <= 0x2000_0000_0000_0000_0000_0000_0000_0000,
{
}

} // verus!
