use glyphy::extents::arc_list_extents;
use glyphy::geometry::{Arc, ArcEndpoint, Extents, Point, COORD_MAX, MOVE_TO};
use glyphy::sdf::{sdf_from_arc_list, SDF_INFINITY};

#[test]
fn single_straight_edge_extents() {
    let list = vec![
        ArcEndpoint { p: Point::new(0, 0), d: MOVE_TO },
        ArcEndpoint { p: Point::new(1, 0), d: 0 },
    ];
    let e = arc_list_extents(&list);
    assert_eq!(e, Extents { min_x: 0, min_y: 0, max_x: 1, max_y: 0 });
}

#[test]
fn single_straight_edge_distance() {
    // one lattice unit is 1/64: the edge runs from (0, 0) to (1, 0), the point is (0.5, 1.0)
    let list = vec![
        ArcEndpoint { p: Point::new(0, 0), d: MOVE_TO },
        ArcEndpoint { p: Point::new(64, 0), d: 0 },
    ];
    let p = Point::new(32, 64);
    assert_eq!(sdf_from_arc_list(&list, &p, None), 64);
    let mut closest = Point::new(7, 7);
    assert_eq!(sdf_from_arc_list(&list, &p, Some(&mut closest)), 64);
    assert_eq!(closest, Point::new(32, 0));
}

#[test]
fn empty_list_is_infinitely_far() {
    let list: Vec<ArcEndpoint> = Vec::new();
    let mut closest = Point::new(7, 7);
    assert_eq!(sdf_from_arc_list(&list, &Point::new(3, 4), Some(&mut closest)), SDF_INFINITY);
    assert_eq!(closest, Point::new(7, 7));
    assert!(arc_list_extents(&list).has_no_point());
}

#[test]
fn points_within_the_range_of_the_lattice() {
    assert_eq!(COORD_MAX, 1 << 20);
    assert!(Point::new(0, 0).in_range());
    assert!(Point::new(COORD_MAX, -COORD_MAX).in_range());
    assert!(!Point::new(COORD_MAX + 1, 0).in_range());
    assert!(!Point::new(0, -COORD_MAX - 1).in_range());
    assert!(!Point::new(i64::MAX, i64::MIN).in_range());
    let p = Point::new(3, -4);
    assert_eq!((p.x, p.y), (3, -4));
}

#[test]
fn endpoints_of_arcs_and_of_contours() {
    let a = Arc { p0: Point::new(1, 2), p1: Point::new(3, 4), d: -77 };
    assert_eq!(a.endpoint(), ArcEndpoint { p: Point::new(3, 4), d: -77 });
    assert!(!a.endpoint().starts_contour());
    let m = ArcEndpoint::move_to(&Point::new(9, 8));
    assert_eq!(m, ArcEndpoint { p: Point::new(9, 8), d: MOVE_TO });
    assert!(m.starts_contour());
    assert_eq!(MOVE_TO, i64::MAX);
}
