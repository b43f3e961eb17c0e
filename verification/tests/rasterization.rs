use rasterizer::GeometryError;
use rasterizer::RasterPoint;
use rasterizer::circle::Circle;
use rasterizer::ellipse::Ellipse;
use rasterizer::line::Line;
use rasterizer::line::LineAlgorithm;
use rasterizer::normalize::Ratio;
use rasterizer::normalize::normalize_points;

fn pairs(v: &Vec<RasterPoint>) -> Vec<(i64, i64)> {
    v.iter().map(|p| (p.x, p.y)).collect()
}

fn as_f64(r: Ratio) -> f64 {
    r.num as f64 / r.den as f64
}

#[test]
fn circle_test() {
    let circle = Circle::new((500, 500), 150).unwrap();
    assert_eq!(circle.centre(), (500, 500));
    assert_eq!(circle.radius(), 150);
    let pts = pairs(circle.points());
    assert!(pts.len() >= 8);
    assert_eq!(pts.len() % 8, 0);
    assert!(pts.contains(&(500, 650)));
    assert!(pts.contains(&(650, 500)));
    assert!(pts.contains(&(500, 350)));
    assert!(pts.contains(&(350, 500)));
}

#[test]
fn circle_radius_five_reference_table() {
    let circle = Circle::new((0, 0), 5).unwrap();
    let pts = pairs(circle.points());
    // Octant trace: (0,5), (1,5), (2,5), (3,4), (4,4), eight reflections each.
    assert_eq!(pts.len(), 40);
    assert!(pts.contains(&(0, 5)));
    assert!(pts.contains(&(5, 0)));
    assert!(pts.contains(&(0, -5)));
    assert!(pts.contains(&(-5, 0)));
    // No emitted point strays from the circle equation by more than the
    // midpoint selection allows for this radius (the worst case is (4,4)).
    for &(x, y) in &pts {
        let dev = (x * x + y * y - 25).abs();
        assert!(dev <= 7, "point ({}, {}) deviates by {}", x, y, dev);
    }
}

#[test]
fn circle_first_block_is_initial_point() {
    let circle = Circle::new((10, 20), 3).unwrap();
    let pts = pairs(circle.points());
    // The initial octant point (0, radius) is emitted first, with all
    // eight reflections about the centre.
    assert_eq!(
        &pts[0..8],
        &[
            (10, 23),
            (10, 23),
            (10, 17),
            (10, 17),
            (13, 20),
            (7, 20),
            (13, 20),
            (7, 20)
        ]
    );
}

#[test]
fn circle_symmetry_under_reflections() {
    let circle = Circle::new((2, 3), 4).unwrap();
    let pts = pairs(circle.points());
    for &(x, y) in &pts {
        assert!(pts.contains(&(x, 6 - y)));
        assert!(pts.contains(&(4 - x, y)));
        assert!(pts.contains(&(2 + (y - 3), 3 + (x - 2))));
        assert!(pts.contains(&(2 - (y - 3), 3 - (x - 2))));
    }
}

#[test]
fn circle_zero_radius_is_nonempty() {
    let circle = Circle::new((7, -3), 0).unwrap();
    let pts = pairs(circle.points());
    assert_eq!(pts.len(), 8);
    for &p in &pts {
        assert_eq!(p, (7, -3));
    }
}

#[test]
fn circle_negative_radius_rejected() {
    assert!(matches!(Circle::new((0, 0), -1), Err(GeometryError::NegativeRadius)));
}

#[test]
fn ellipse_small_reference_sequence() {
    let ellipse = Ellipse::new((0, 0), 3, 2).unwrap();
    let pts = pairs(ellipse.points());
    // Quadrant trace: (0,2), (1,2), (2,1), (3,0), four reflections each.
    assert_eq!(
        pts,
        vec![
            (0, 2),
            (0, 2),
            (0, -2),
            (0, -2),
            (1, 2),
            (-1, 2),
            (1, -2),
            (-1, -2),
            (2, 1),
            (-2, 1),
            (2, -1),
            (-2, -1),
            (3, 0),
            (-3, 0),
            (3, 0),
            (-3, 0)
        ]
    );
}

#[test]
fn ellipse_equal_axes_matches_circle_for_small_radii() {
    for r in [1, 2] {
        let ellipse = Ellipse::new((4, -1), r, r).unwrap();
        let circle = Circle::new((4, -1), r).unwrap();
        let mut eset = pairs(ellipse.points());
        let mut cset = pairs(circle.points());
        eset.sort();
        eset.dedup();
        cset.sort();
        cset.dedup();
        assert_eq!(eset, cset, "radius {}", r);
    }
}

#[test]
fn ellipse_degenerate_axes_do_not_divide_by_zero() {
    let flat = Ellipse::new((0, 0), 5, 0).unwrap();
    assert_eq!(pairs(flat.points()).len(), 4);
    let tall = Ellipse::new((0, 0), 0, 3).unwrap();
    let pts = pairs(tall.points());
    // A zero first semi-axis walks straight down from (0, b) to (0, 0).
    assert_eq!(pts.len(), 16);
    assert!(pts.contains(&(0, 3)));
    assert!(pts.contains(&(0, -3)));
    assert!(pts.contains(&(0, 0)));
}

#[test]
fn ellipse_negative_axes_rejected() {
    assert!(matches!(Ellipse::new((0, 0), -1, 2), Err(GeometryError::NegativeSemiAxisA)));
    assert!(matches!(Ellipse::new((0, 0), 2, -1), Err(GeometryError::NegativeSemiAxisB)));
}

#[test]
fn dda_diagonal_five_points() {
    let line = Line::new((0, 0), (4, 4), LineAlgorithm::DDA);
    assert_eq!(pairs(line.points()), vec![(0, 0), (1, 1), (2, 2), (3, 3), (4, 4)]);
}

#[test]
fn dda_rounds_ties_away_from_zero() {
    let line = Line::new((0, 0), (2, 1), LineAlgorithm::DDA);
    assert_eq!(pairs(line.points()), vec![(0, 0), (1, 1), (2, 1)]);
    let back = Line::new((0, 0), (-2, -1), LineAlgorithm::DDA);
    assert_eq!(pairs(back.points()), vec![(0, 0), (-1, -1), (-2, -1)]);
}

#[test]
fn line_endpoints_included_for_all_algorithms() {
    for algo in [LineAlgorithm::DDA, LineAlgorithm::Bresenham, LineAlgorithm::Midpoint] {
        let line = Line::new((1, 2), (7, 5), algo);
        let pts = pairs(line.points());
        assert_eq!(*pts.first().unwrap(), (1, 2));
        assert_eq!(*pts.last().unwrap(), (7, 5));
    }
}

#[test]
fn line_coincident_endpoints_single_point() {
    for algo in [LineAlgorithm::DDA, LineAlgorithm::Bresenham, LineAlgorithm::Midpoint] {
        let line = Line::new((3, -4), (3, -4), algo);
        assert_eq!(pairs(line.points()), vec![(3, -4)]);
    }
}

#[test]
fn bresenham_shallow_reference_sequence() {
    let line = Line::new((0, 0), (3, 1), LineAlgorithm::Bresenham);
    assert_eq!(pairs(line.points()), vec![(0, 0), (1, 0), (2, 1), (3, 1)]);
}

#[test]
fn bresenham_direction_symmetry_without_tie() {
    let cases = [((0, 0), (3, 1)), ((2, -1), (7, 2)), ((-1, -1), (2, 4)), ((0, 0), (5, 5))];
    for (p0, p1) in cases {
        let forward = pairs(Line::new(p0, p1, LineAlgorithm::Bresenham).points());
        let mut backward = pairs(Line::new(p1, p0, LineAlgorithm::Bresenham).points());
        backward.reverse();
        assert_eq!(forward, backward, "{:?} -> {:?}", p0, p1);
    }
}

#[test]
fn midpoint_steep_reference_sequence() {
    let line = Line::new((0, 0), (2, 4), LineAlgorithm::Midpoint);
    assert_eq!(pairs(line.points()), vec![(0, 0), (1, 1), (1, 2), (2, 3), (2, 4)]);
}

#[test]
fn midpoint_error_bias_differs_from_bresenham_when_steep() {
    // The midpoint walk seeds its error from the minor delta on the
    // y-driven side, so it climbs one step earlier than Bresenham.
    let midpoint = pairs(Line::new((0, 0), (1, 2), LineAlgorithm::Midpoint).points());
    let bresenham = pairs(Line::new((0, 0), (1, 2), LineAlgorithm::Bresenham).points());
    assert_eq!(midpoint, vec![(0, 0), (1, 1), (1, 2)]);
    assert_eq!(bresenham, vec![(0, 0), (0, 1), (1, 2)]);
}

#[test]
fn normalization_reference_corners() {
    let at_resolution = Line::new((800, 600), (800, 600), LineAlgorithm::DDA);
    let buf = at_resolution.get_normalized_coordinate();
    assert_eq!(buf.len(), 6);
    assert_eq!(as_f64(buf[0]), 0.0);
    assert_eq!(as_f64(buf[1]), 0.0);
    assert_eq!(as_f64(buf[2]), 0.0);

    let at_origin = Line::new((0, 0), (0, 0), LineAlgorithm::DDA);
    let buf = at_origin.get_normalized_coordinate();
    assert_eq!(as_f64(buf[0]), -1.0);
    assert_eq!(as_f64(buf[1]), -1.0);
}

#[test]
fn normalization_vertex_layout() {
    let circle = Circle::new((0, 0), 0).unwrap();
    let with_z = circle.get_normalized_coordinate();
    assert_eq!(with_z.len(), 6 * 8);
    // Stride six: position x, position y, z, then opaque white.
    assert_eq!(as_f64(with_z[2]), 0.0);
    assert_eq!(as_f64(with_z[3]), 1.0);
    assert_eq!(as_f64(with_z[4]), 1.0);
    assert_eq!(as_f64(with_z[5]), 1.0);
    let flat = circle.get_2d_normalized_coordinate();
    assert_eq!(flat.len(), 5 * 8);
    assert_eq!(as_f64(flat[2]), 1.0);
}

#[test]
fn normalize_points_custom_resolution() {
    let points = vec![RasterPoint { x: 400, y: 300 }];
    let buf = normalize_points(&points, 800, 600, false);
    assert_eq!(buf.len(), 5);
    assert_eq!(as_f64(buf[0]), -0.5);
    assert_eq!(as_f64(buf[1]), -0.5);
    assert_eq!(buf[0], Ratio { num: -400, den: 800 });
}
