//! Midpoint-circle rasterization with eight-way symmetric emission.
//!
//! The first-octant arc is traced by the decision-variable recurrence
//! `d = 1 - radius`, stepping east while `d < 0` and south-east otherwise,
//! and every computed octant point is emitted together with its eight
//! reflections about the centre.

use vstd::prelude::*;
use vstd::arithmetic::div_mod::lemma_fundamental_div_mod;
use vstd::arithmetic::div_mod::lemma_fundamental_div_mod_converse;
use crate::GeometryError;
use crate::RasterPoint;
use crate::math::abs_val;
use crate::point_in_range;
use crate::point_pair;
use crate::pts_view;
use crate::normalize::DEFAULT_RES_X;
use crate::normalize::DEFAULT_RES_Y;
use crate::normalize::Ratio;
use crate::normalize::normalize_points;

verus! {

/// The octant points that follow the state `(x, y, d)` of the midpoint
/// recurrence: while `y > x`, an east step keeps `y` (`d < 0`) and a
/// south-east step lowers it, `x` rising every time.
pub open spec fn circle_octant_rest(x: int, y: int, d: int) -> Seq<(int, int)>
    decreases y - x + 1,
{
    if y > x {
        if d < 0 {
            seq![(x + 1, y)] + circle_octant_rest(x + 1, y, d + 2 * x + 1)
        } else {
            seq![(x + 1, y - 1)] + circle_octant_rest(x + 1, y - 1, d + 2 * (x - y) + 1)
        }
    } else {
        Seq::empty()
    }
}

/// The first-octant arc of a circle with the given radius, as offsets from
/// the centre, starting at `(0, radius)`.
pub open spec fn circle_octant(radius: int) -> Seq<(int, int)> {
    seq![(0int, radius)] + circle_octant_rest(0, radius, 1 - radius)
}

/// The `j`-th of the eight reflections of the octant offset `p` about the
/// centre `c`, in the order the rasterizer emits them.
pub open spec fn octant_reflection(c: (int, int), p: (int, int), j: int) -> (int, int) {
    if j == 0 {
        (c.0 + p.0, c.1 + p.1)
    } else if j == 1 {
        (c.0 - p.0, c.1 + p.1)
    } else if j == 2 {
        (c.0 + p.0, c.1 - p.1)
    } else if j == 3 {
        (c.0 - p.0, c.1 - p.1)
    } else if j == 4 {
        (c.0 + p.1, c.1 + p.0)
    } else if j == 5 {
        (c.0 - p.1, c.1 + p.0)
    } else if j == 6 {
        (c.0 + p.1, c.1 - p.0)
    } else {
        (c.0 - p.1, c.1 - p.0)
    }
}

/// The full point sequence of a rasterized circle: each octant point in
/// generation order, replaced by its eight reflections about the centre.
pub open spec fn circle_raster(c: (int, int), radius: int) -> Seq<(int, int)> {
    Seq::new(
        (8 * circle_octant(radius).len()) as nat,
        |k: int| octant_reflection(c, circle_octant(radius)[k / 8], k % 8),
    )
}

/// A circle described by an integer centre and radius, rasterized on
/// construction by the midpoint algorithm.
pub struct Circle {
    points: Vec<RasterPoint>,
    centre: (i32, i32),
    radius: i32,
}

impl View for Circle {
    type V = Seq<(int, int)>;

    /// The ordered sequence of raster coordinates the circle emitted.
    closed spec fn view(&self) -> Seq<(int, int)> {
        pts_view(self.points@)
    }
}

impl Circle {
    /// The centre the circle was described with.
    pub closed spec fn centre_spec(&self) -> (int, int) {
        (self.centre.0 as int, self.centre.1 as int)
    }

    /// The radius the circle was described with.
    pub closed spec fn radius_spec(&self) -> int {
        self.radius as int
    }

    /// All stored raster points are in coordinate range.
    pub closed spec fn wf(&self) -> bool {
        forall|i: int| 0 <= i < self.points@.len() ==> point_in_range(#[trigger] self.points@[i])
    }

    /// Validates the descriptor and rasterizes the circle.
    ///
    /// A negative radius violates the geometry invariant and is rejected;
    /// any non-negative radius yields the full midpoint raster, which is
    /// never empty (a zero radius emits the centre eight times).
    pub fn new(centre: (i32, i32), radius: i32) -> (result: Result<Circle, GeometryError>)
        ensures
            radius >= 0 ==> (result matches Ok(circle)
                && circle@ == circle_raster((centre.0 as int, centre.1 as int), radius as int)
                && circle@.len() >= 8
                && circle.wf()
                && circle.centre_spec() == (centre.0 as int, centre.1 as int)
                && circle.radius_spec() == radius as int),
            radius < 0 ==> result == Err::<Circle, GeometryError>(GeometryError::NegativeRadius),
    {
        if radius < 0 {
            return Err(GeometryError::NegativeRadius);
        }
        let points = Self::generate_midpoint_circle(centre, radius);
        Ok(Circle { points, centre, radius })
    }

    /// Runs the midpoint recurrence over the first octant and emits the
    /// eight-way symmetric point set.
    fn generate_midpoint_circle(centre: (i32, i32), radius: i32) -> (points: Vec<RasterPoint>)
        requires
            radius >= 0,
        ensures
            pts_view(points@) == circle_raster(
                (centre.0 as int, centre.1 as int),
                radius as int,
            ),
            forall|i: int| 0 <= i < points@.len() ==> point_in_range(#[trigger] points@[i]),
    {
        let ghost c = (centre.0 as int, centre.1 as int);
        let ghost oct = circle_octant(radius as int);
        let cx: i64 = centre.0 as i64;
        let cy: i64 = centre.1 as i64;
        let mut points: Vec<RasterPoint> = Vec::new();
        let mut x: i64 = 0;
        let mut y: i64 = radius as i64;
        let mut d: i64 = 1 - radius as i64;

        Self::push_symmetric_points(&mut points, cx, cy, x, y);
        let ghost mut k = 1int;
        proof {
            assert(oct.take(1) =~= seq![(0int, radius as int)]);
            assert(oct.take(1) + circle_octant_rest(0, radius as int, 1 - radius as int) =~= oct);
            assert forall|i: int| 0 <= i < points@.len() implies point_pair(points@[i])
                == octant_reflection(c, oct[i / 8], i % 8) by {
                lemma_fundamental_div_mod_converse(i, 8, 0, i);
            }
        }

        while y > x
            invariant
                0 <= x,
                x <= y + 1,
                y <= radius,
                radius >= 0,
                -2 * (radius as int) - 2 <= d,
                d <= 2 * (radius as int) + 2,
                1 <= k,
                k <= oct.len(),
                oct == circle_octant(radius as int),
                c == (centre.0 as int, centre.1 as int),
                cx as int == c.0,
                cy as int == c.1,
                -0x1_0000_0000 <= cx <= 0x1_0000_0000,
                -0x1_0000_0000 <= cy <= 0x1_0000_0000,
                oct.take(k) + circle_octant_rest(x as int, y as int, d as int) == oct,
                oct[k - 1] == (x as int, y as int),
                points@.len() == 8 * k,
                forall|i: int| 0 <= i < points@.len() ==> point_in_range(#[trigger] points@[i]),
                forall|i: int|
                    0 <= i < points@.len() ==> point_pair(#[trigger] points@[i])
                        == octant_reflection(c, oct[i / 8], i % 8),
            decreases y - x + 1,
        {
            let ghost x_prev = x as int;
            let ghost y_prev = y as int;
            let ghost d_prev = d as int;
            if d < 0 {
                d = d + 2 * x + 1;
            } else {
                d = d + 2 * (x - y) + 1;
                y = y - 1;
            }
            x = x + 1;
            proof {
                assert(circle_octant_rest(x_prev, y_prev, d_prev)
                    == seq![(x as int, y as int)]
                        + circle_octant_rest(x as int, y as int, d as int));
                assert(oct[k] == (x as int, y as int));
                assert(oct.take(k + 1) =~= oct.take(k) + seq![(x as int, y as int)]);
                assert(oct.take(k + 1) + circle_octant_rest(x as int, y as int, d as int) =~= oct);
            }
            Self::push_symmetric_points(&mut points, cx, cy, x, y);
            proof {
                k = k + 1;
                assert forall|i: int| 8 * (k - 1) <= i < 8 * k implies point_pair(points@[i])
                    == octant_reflection(c, oct[i / 8], i % 8) by {
                    lemma_fundamental_div_mod_converse(i, 8, k - 1, i - 8 * (k - 1));
                }
            }
        }
        proof {
            assert(oct.take(k) =~= oct);
            assert(pts_view(points@) =~= circle_raster(c, radius as int));
        }
        points
    }

    /// Appends the eight reflections of the octant offset `(x, y)` about the
    /// centre `(cx, cy)`, in the fixed emission order.
    fn push_symmetric_points(points: &mut Vec<RasterPoint>, cx: i64, cy: i64, x: i64, y: i64)
        requires
            -0x1_0000_0000 <= cx <= 0x1_0000_0000,
            -0x1_0000_0000 <= cy <= 0x1_0000_0000,
            0 <= x <= 0x1_0000_0000,
            0 <= y <= 0x1_0000_0000,
        ensures
            final(points)@.len() == old(points)@.len() + 8,
            forall|i: int| 0 <= i < old(points)@.len() ==> final(points)@[i] == old(points)@[i],
            forall|i: int|
                old(points)@.len() <= i < final(points)@.len()
                    ==> point_pair(#[trigger] final(points)@[i])
                        == octant_reflection(
                        (cx as int, cy as int),
                        (x as int, y as int),
                        i - old(points)@.len(),
                    ),
            forall|i: int|
                old(points)@.len() <= i < final(points)@.len()
                    ==> point_in_range(#[trigger] final(points)@[i]),
    {
        points.push(RasterPoint { x: cx + x, y: cy + y });
        points.push(RasterPoint { x: cx - x, y: cy + y });
        points.push(RasterPoint { x: cx + x, y: cy - y });
        points.push(RasterPoint { x: cx - x, y: cy - y });
        points.push(RasterPoint { x: cx + y, y: cy + x });
        points.push(RasterPoint { x: cx - y, y: cy + x });
        points.push(RasterPoint { x: cx + y, y: cy - x });
        points.push(RasterPoint { x: cx - y, y: cy - x });
    }

    /// Maps the rasterized points into clip space against the default
    /// virtual raster, six entries per vertex: normalized x and y, a zero
    /// z component, and the opaque-white colour.
    pub fn get_normalized_coordinate(&self) -> (r: Vec<Ratio>)
        requires
            self.wf(),
        ensures
            r@.len() == 6 * self@.len(),
            forall|i: int|
                0 <= i < self@.len() ==> {
                    let p = #[trigger] self@[i];
                    &&& r@[6 * i] == (Ratio { num: (p.0 - 800) as i64, den: 800 })
                    &&& r@[6 * i + 1] == (Ratio { num: (p.1 - 600) as i64, den: 600 })
                    &&& r@[6 * i + 2] == (Ratio { num: 0, den: 1 })
                    &&& r@[6 * i + 3] == (Ratio { num: 1, den: 1 })
                    &&& r@[6 * i + 4] == (Ratio { num: 1, den: 1 })
                    &&& r@[6 * i + 5] == (Ratio { num: 1, den: 1 })
                },
    {
        normalize_points(&self.points, DEFAULT_RES_X, DEFAULT_RES_Y, true)
    }

    /// Maps the rasterized points into clip space against the default
    /// virtual raster, five entries per vertex: normalized x and y and the
    /// opaque-white colour, with no z component.
    pub fn get_2d_normalized_coordinate(&self) -> (r: Vec<Ratio>)
        requires
            self.wf(),
        ensures
            r@.len() == 5 * self@.len(),
            forall|i: int|
                0 <= i < self@.len() ==> {
                    let p = #[trigger] self@[i];
                    &&& r@[5 * i] == (Ratio { num: (p.0 - 800) as i64, den: 800 })
                    &&& r@[5 * i + 1] == (Ratio { num: (p.1 - 600) as i64, den: 600 })
                    &&& r@[5 * i + 2] == (Ratio { num: 1, den: 1 })
                    &&& r@[5 * i + 3] == (Ratio { num: 1, den: 1 })
                    &&& r@[5 * i + 4] == (Ratio { num: 1, den: 1 })
                },
    {
        normalize_points(&self.points, DEFAULT_RES_X, DEFAULT_RES_Y, false)
    }

    /// The rasterized point sequence.
    pub fn points(&self) -> (r: &Vec<RasterPoint>)
        ensures
            pts_view(r@) == self@,
    {
        &self.points
    }

    /// The centre the circle was described with.
    pub fn centre(&self) -> (r: (i32, i32))
        ensures
            (r.0 as int, r.1 as int) == self.centre_spec(),
    {
        self.centre
    }

    /// The radius the circle was described with.
    pub fn radius(&self) -> (r: i32)
        ensures
            r as int == self.radius_spec(),
    {
        self.radius
    }
}

/// Along the first-octant arc the decision variable equals the circle
/// equation at the current point plus a linear correction, so every
/// emitted octant point stays within the midpoint selection band.
proof fn lemma_octant_rest_deviation(x: int, y: int, d: int, r: int, p: (int, int))
    requires
        0 <= x,
        x <= y + 1,
        y <= r,
        -2 * r - 2 <= d,
        d <= 2 * r + 2,
        d == x * x + y * y - r * r + 1 - 2 * r + y,
        circle_octant_rest(x, y, d).contains(p),
    ensures
        abs_val(p.0 * p.0 + p.1 * p.1 - r * r) <= 4 * r + 3,
    decreases y - x + 1,
{
    if y > x {
        if d < 0 {
            let d2 = d + 2 * x + 1;
            assert(d2 == (x + 1) * (x + 1) + y * y - r * r + 1 - 2 * r + y) by (nonlinear_arith)
                requires
                    d == x * x + y * y - r * r + 1 - 2 * r + y,
                    d2 == d + 2 * x + 1,
            ;
            if p == (x + 1, y) {
                assert(abs_val(p.0 * p.0 + p.1 * p.1 - r * r) <= 4 * r + 3);
            } else {
                assert(circle_octant_rest(x + 1, y, d2).contains(p)) by {
                    let s = circle_octant_rest(x, y, d);
                    let idx = choose|idx: int| 0 <= idx < s.len() && s[idx] == p;
                    assert(circle_octant_rest(x + 1, y, d2)[idx - 1] == p);
                }
                lemma_octant_rest_deviation(x + 1, y, d2, r, p);
            }
        } else {
            let d2 = d + 2 * (x - y) + 1;
            assert(d2 == (x + 1) * (x + 1) + (y - 1) * (y - 1) - r * r + 1 - 2 * r + (y - 1))
                by (nonlinear_arith)
                requires
                    d == x * x + y * y - r * r + 1 - 2 * r + y,
                    d2 == d + 2 * (x - y) + 1,
            ;
            if p == (x + 1, y - 1) {
                assert(abs_val(p.0 * p.0 + p.1 * p.1 - r * r) <= 4 * r + 3);
            } else {
                assert(circle_octant_rest(x + 1, y - 1, d2).contains(p)) by {
                    let s = circle_octant_rest(x, y, d);
                    let idx = choose|idx: int| 0 <= idx < s.len() && s[idx] == p;
                    assert(circle_octant_rest(x + 1, y - 1, d2)[idx - 1] == p);
                }
                lemma_octant_rest_deviation(x + 1, y - 1, d2, r, p);
            }
        }
    }
}

/// No rasterized circle point strays from the circle equation by more
/// than the midpoint selection allows: writing `(u, v)` for its offsets
/// from the centre, `|u² + v² - r²| <= 4 r + 3`.
pub proof fn lemma_circle_deviation(c: (int, int), radius: int, p: (int, int))
    requires
        radius >= 0,
        circle_raster(c, radius).contains(p),
    ensures
        abs_val(
            (p.0 - c.0) * (p.0 - c.0) + (p.1 - c.1) * (p.1 - c.1) - radius * radius,
        ) <= 4 * radius + 3,
{
    let s = circle_raster(c, radius);
    let oct = circle_octant(radius);
    let k = choose|k: int| 0 <= k < s.len() && s[k] == p;
    lemma_fundamental_div_mod(k, 8);
    vstd::arithmetic::div_mod::lemma_mod_bound(k, 8);
    let i = k / 8;
    let j = k % 8;
    let q = oct[i];
    // Each of the eight reflections preserves the sum of squared offsets.
    assert((p.0 - c.0) * (p.0 - c.0) + (p.1 - c.1) * (p.1 - c.1) == q.0 * q.0 + q.1 * q.1)
        by (nonlinear_arith)
        requires
            p == octant_reflection(c, q, j),
    ;
    if i == 0 {
        assert(q == (0int, radius));
        assert(abs_val(q.0 * q.0 + q.1 * q.1 - radius * radius) == 0) by (nonlinear_arith)
            requires
                q == (0int, radius),
        ;
    } else {
        let rest = circle_octant_rest(0, radius, 1 - radius);
        assert(rest[i - 1] == q);
        assert(rest.contains(q));
        assert(1 - radius == 0 * 0 + radius * radius - radius * radius + 1 - 2 * radius + radius)
            by (nonlinear_arith);
        lemma_octant_rest_deviation(0, radius, 1 - radius, radius, q);
    }
}

/// Reflecting any point of a rasterized circle across the horizontal axis,
/// the vertical axis, or either diagonal through the centre yields another
/// point of the same rasterized circle.
pub proof fn lemma_circle_symmetry(c: (int, int), radius: int, p: (int, int))
    requires
        radius > 0,
        circle_raster(c, radius).contains(p),
    ensures
        circle_raster(c, radius).contains(((p.0, 2 * c.1 - p.1))),
        circle_raster(c, radius).contains(((2 * c.0 - p.0, p.1))),
        circle_raster(c, radius).contains(((c.0 + (p.1 - c.1), c.1 + (p.0 - c.0)))),
        circle_raster(c, radius).contains(((c.0 - (p.1 - c.1), c.1 - (p.0 - c.0)))),
{
    let s = circle_raster(c, radius);
    let oct = circle_octant(radius);
    let k = choose|k: int| 0 <= k < s.len() && s[k] == p;
    lemma_fundamental_div_mod(k, 8);
    vstd::arithmetic::div_mod::lemma_mod_bound(k, 8);
    let i = k / 8;
    let j = k % 8;
    let q = oct[i];
    assert(8 * i + j < 8 * oct.len());

    let jh = if j == 0 { 2int } else if j == 1 { 3int } else if j == 2 { 0int }
        else if j == 3 { 1int } else if j == 4 { 6int } else if j == 5 { 7int }
        else if j == 6 { 4int } else { 5int };
    assert(s[8 * i + jh] == octant_reflection(c, q, jh)) by {
        lemma_fundamental_div_mod_converse(8 * i + jh, 8, i, jh);
    }
    assert(s[8 * i + jh] == (p.0, 2 * c.1 - p.1));
    assert(s.contains((p.0, 2 * c.1 - p.1)));

    let jv = if j == 0 { 1int } else if j == 1 { 0int } else if j == 2 { 3int }
        else if j == 3 { 2int } else if j == 4 { 5int } else if j == 5 { 4int }
        else if j == 6 { 7int } else { 6int };
    assert(s[8 * i + jv] == octant_reflection(c, q, jv)) by {
        lemma_fundamental_div_mod_converse(8 * i + jv, 8, i, jv);
    }
    assert(s[8 * i + jv] == (2 * c.0 - p.0, p.1));
    assert(s.contains((2 * c.0 - p.0, p.1)));

    let jd = if j == 0 { 4int } else if j == 1 { 6int } else if j == 2 { 5int }
        else if j == 3 { 7int } else if j == 4 { 0int } else if j == 5 { 2int }
        else if j == 6 { 1int } else { 3int };
    assert(s[8 * i + jd] == octant_reflection(c, q, jd)) by {
        lemma_fundamental_div_mod_converse(8 * i + jd, 8, i, jd);
    }
    assert(s[8 * i + jd] == (c.0 + (p.1 - c.1), c.1 + (p.0 - c.0)));
    assert(s.contains((c.0 + (p.1 - c.1), c.1 + (p.0 - c.0))));

    let ja = if j == 0 { 7int } else if j == 1 { 5int } else if j == 2 { 6int }
        else if j == 3 { 4int } else if j == 4 { 3int } else if j == 5 { 1int }
        else if j == 6 { 2int } else { 0int };
    assert(s[8 * i + ja] == octant_reflection(c, q, ja)) by {
        lemma_fundamental_div_mod_converse(8 * i + ja, 8, i, ja);
    }
    assert(s[8 * i + ja] == (c.0 - (p.1 - c.1), c.1 - (p.0 - c.0)));
    assert(s.contains((c.0 - (p.1 - c.1), c.1 - (p.0 - c.0))));
}

} // verus!
