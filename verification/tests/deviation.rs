use glyphy::fitter::Bezier;
use glyphy::geometry::{Arc, Point};

fn arc(x0: i64, y0: i64, x1: i64, y1: i64, d: i64) -> Arc {
    Arc { p0: Point::new(x0, y0), p1: Point::new(x1, y1), d }
}

#[test]
fn wedge_of_an_arc_on_a_finer_scale() {
    let a = arc(-1000, 0, 1000, 0, 8192);
    assert!(a.in_wedge_scaled(0, 0, 1));
    assert!(a.in_wedge_scaled(0, -1500, 3));
    assert!(a.in_wedge_scaled(3000, 0, 3));
    assert!(!a.in_wedge_scaled(3001, 0, 3));
    assert!(!a.in_wedge_scaled(3000, 0, 1));
    let s = arc(0, 0, 100, 0, 0);
    assert!(s.in_wedge_scaled(300, 77, 3));
    assert!(!s.in_wedge_scaled(301, 77, 3));
    assert!(!s.in_wedge_scaled(-1, 0, 2));
}

#[test]
fn cross_product_on_a_finer_scale() {
    let s = arc(10, 20, 110, 20, 0);
    assert_eq!(s.cross_scaled(50, 70, 1), 100 * 50);
    assert_eq!(s.cross_scaled(150, 210, 3), 100 * 150);
    assert_eq!(s.cross_scaled(30, 60, 3), 0);
    let t = arc(0, 0, 3, 4, 0);
    assert_eq!(t.cross_scaled(4, -3, 1), 3 * -3 - 4 * 4);
}

#[test]
fn vector_from_the_centre_on_a_finer_scale() {
    // a half circle about the origin: four times the curvature is the scale
    let a = arc(-1000, 0, 1000, 0, 16384);
    let k = 4 * 16384 * 16384;
    assert_eq!(a.from_center_scaled(1000, 0, 1), (k * 1000, 0));
    assert_eq!(a.from_center_scaled(0, -1000, 1), (0, -k * 1000));
    assert_eq!(a.from_center_scaled(300, 1200, 3), (k * 300, k * 1200));
}

#[test]
fn control_points_bound_the_curve() {
    let b = Bezier::cubic(
        &Point::new(0, 0),
        &Point::new(30, 40),
        &Point::new(-7, 9),
        &Point::new(10, -5),
    );
    assert_eq!(b.hull_bound(), 50);
    let p = Point::new(5, 7);
    assert_eq!(Bezier::cubic(&p, &p, &p, &p).hull_bound(), 0);
    let c = Bezier::conic(&Point::new(0, 0), &Point::new(3, 0), &Point::new(0, 4));
    // the control points lie two units off along x at most and four along y
    assert_eq!(c.hull_bound(), 5);
}
