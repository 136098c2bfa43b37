use glyphy::arc_list::arc_list_arcs;
use glyphy::geometry::{Arc, ArcEndpoint, Extents, Point, CURVATURE_ONE, MOVE_TO};
use glyphy::sdf::{
    arcs_boxes, box_within_reach, closest_point_on_arcs, inside_arc_list, inside_arcs,
    min_distance, nearest_index, sdf_from_arc_list, sdf_from_arcs, sdf_from_arcs_near,
    SDF_INFINITY,
};

fn pt(x: i64, y: i64) -> Point {
    Point::new(x, y)
}

fn arc(x0: i64, y0: i64, x1: i64, y1: i64, d: i64) -> Arc {
    Arc { p0: pt(x0, y0), p1: pt(x1, y1), d }
}

fn ep(x: i64, y: i64, d: i64) -> ArcEndpoint {
    ArcEndpoint { p: pt(x, y), d }
}

/// A circle about the origin as two half circles, counter-clockwise for a
/// positive `d`.
fn circle(r: i64, d: i64) -> Vec<ArcEndpoint> {
    vec![ep(-r, 0, MOVE_TO), ep(r, 0, d), ep(-r, 0, d)]
}

fn square() -> Vec<ArcEndpoint> {
    vec![ep(0, 0, MOVE_TO), ep(100, 0, 0), ep(100, 100, 0), ep(0, 100, 0)]
}

fn sdf(list: &[ArcEndpoint], x: i64, y: i64) -> i64 {
    sdf_from_arc_list(list, &pt(x, y), None)
}

fn closest(list: &[ArcEndpoint], x: i64, y: i64) -> Point {
    let mut q = pt(i64::MIN, i64::MIN);
    sdf_from_arc_list(list, &pt(x, y), Some(&mut q));
    q
}

#[test]
fn distance_to_a_straight_arc() {
    let a = arc(0, 0, 100, 0, 0);
    assert_eq!(a.distance(&pt(50, 30)), 30);
    assert_eq!(a.distance(&pt(50, -30)), 30);
    assert_eq!(a.distance(&pt(0, 0)), 0);
    assert_eq!(a.distance(&pt(100, 0)), 0);
    assert_eq!(a.distance(&pt(50, 0)), 0);
    assert_eq!(a.distance(&pt(-30, 40)), 50);
    assert_eq!(a.distance(&pt(130, -40)), 50);
    assert_eq!(a.distance(&pt(200, 0)), 100);
    // rounded down: the distance is 5 / sqrt(2) = 3.53...
    assert_eq!(arc(0, 0, 100, 100, 0).distance(&pt(5, 0)), 3);
    // an arc of no length is a point
    assert_eq!(arc(7, 7, 7, 7, 0).distance(&pt(10, 11)), 5);
    assert_eq!(arc(7, 7, 7, 7, 16384).distance(&pt(10, 11)), 5);
}

#[test]
fn distance_to_a_curved_arc() {
    let a = arc(-1000, 0, 1000, 0, 8192);
    assert_eq!(a.distance(&pt(0, 0)), 500);
    assert_eq!(a.distance(&pt(0, -500)), 0);
    assert_eq!(a.distance(&pt(0, -600)), 100);
    assert_eq!(a.distance(&pt(0, -400)), 100);
    assert_eq!(a.distance(&pt(0, 750)), 1250);
    assert_eq!(a.distance(&pt(3000, 0)), 2000);
    assert_eq!(a.distance(&pt(-3000, -10)), 2000);
    assert_eq!(a.distance(&pt(500, -300)), 87);
    assert_eq!(a.distance(&pt(123, -456)), 37);
    let b = arc(17, -5, 230, 411, -3000);
    assert_eq!(b.distance(&pt(0, 0)), 17);
    assert_eq!(b.distance(&pt(100, 200)), 23);
    assert_eq!(b.distance(&pt(150, 150)), 89);
    assert_eq!(b.distance(&pt(400, 400)), 170);
    assert_eq!(b.distance(&pt(60, 250)), 35);
}

#[test]
fn wedge_of_an_arc() {
    let a = arc(-1000, 0, 1000, 0, 8192);
    assert!(a.in_wedge(&pt(0, 0)));
    assert!(a.in_wedge(&pt(0, 750)));
    assert!(a.in_wedge(&pt(500, -300)));
    assert!(!a.in_wedge(&pt(3000, 0)));
    assert!(!a.in_wedge(&pt(-3000, -10)));
    let s = arc(0, 0, 100, 0, 0);
    assert!(s.in_wedge(&pt(0, 50)));
    assert!(s.in_wedge(&pt(100, -50)));
    assert!(!s.in_wedge(&pt(101, 0)));
    assert!(!s.in_wedge(&pt(-1, 0)));
}

#[test]
fn nearest_point_of_an_arc() {
    let a = arc(-1000, 0, 1000, 0, 8192);
    assert_eq!(a.nearest_point(&pt(0, 0)), pt(0, -500));
    assert_eq!(a.nearest_point(&pt(0, -600)), pt(0, -500));
    assert_eq!(a.nearest_point(&pt(0, 750)), pt(-1000, 0));
    assert_eq!(a.nearest_point(&pt(3000, 0)), pt(1000, 0));
    assert_eq!(a.nearest_point(&pt(-3000, -10)), pt(-1000, 0));
    assert_eq!(a.nearest_point(&pt(500, -300)), pt(537, -379));
    assert_eq!(a.nearest_point(&pt(123, -456)), pt(127, -494));
    let b = arc(17, -5, 230, 411, -3000);
    assert_eq!(b.nearest_point(&pt(0, 0)), pt(17, -2));
    assert_eq!(b.nearest_point(&pt(100, 200)), pt(79, 210));
    assert_eq!(b.nearest_point(&pt(400, 400)), pt(230, 411));
    let s = arc(0, 0, 100, 0, 0);
    assert_eq!(s.nearest_point(&pt(33, 70)), pt(33, 0));
    assert_eq!(s.nearest_point(&pt(-5, 70)), pt(0, 0));
    assert_eq!(s.nearest_point(&pt(50, 0)), pt(50, 0));
    assert_eq!(arc(0, 0, 100, 100, 0).nearest_point(&pt(5, 0)), pt(3, 3));
    assert_eq!(arc(7, 7, 7, 7, 0).nearest_point(&pt(10, 11)), pt(7, 7));
}

#[test]
fn crossings_of_an_arc() {
    let a = arc(-1000, 0, 1000, 0, 8192);
    assert!(!a.flips(&pt(0, 0)));
    assert!(!a.flips(&pt(0, -600)));
    assert!(a.flips(&pt(500, -300)));
    assert!(a.flips(&pt(0, -400)));
    assert!(!a.flips(&pt(3000, 0)));
    let up = arc(0, 0, 0, 100, 0);
    assert!(up.flips(&pt(-10, 50)));
    assert!(!up.flips(&pt(10, 50)));
    assert!(!up.flips(&pt(-10, 150)));
    // the lower end counts as part of the chord, the upper one does not
    assert!(up.flips(&pt(-10, 0)));
    assert!(!up.flips(&pt(-10, 100)));
}

#[test]
fn circle_is_negative_inside_and_positive_outside() {
    for d in [CURVATURE_ONE, -CURVATURE_ONE] {
        let list = circle(1000, d);
        assert_eq!(sdf(&list, 0, 0), -1000);
        assert_eq!(sdf(&list, 2000, 0), 1000);
        assert_eq!(sdf(&list, -2000, 0), 1000);
        assert_eq!(sdf(&list, 0, 2000), 1000);
        assert_eq!(sdf(&list, 0, -2000), 1000);
        assert_eq!(sdf(&list, 500, 0), -500);
        assert_eq!(sdf(&list, 300, 400), -500);
        assert_eq!(sdf(&list, 3000, 4000), 4000);
        assert_eq!(sdf(&list, 0, 999), -1);
        assert_eq!(sdf(&list, 0, 1001), 1);
        assert_eq!(sdf(&list, -999, 0), -1);
        assert_eq!(sdf(&list, 1001, 0), 1);
        assert_eq!(sdf(&list, 1000, 0), 0);
        assert_eq!(sdf(&list, 600, 800), 0);
    }
}

#[test]
fn closest_point_on_a_circle() {
    let list = circle(1000, CURVATURE_ONE);
    assert_eq!(closest(&list, 2000, 0), pt(1000, 0));
    assert_eq!(closest(&list, 0, 2000), pt(0, 1000));
    assert_eq!(closest(&list, 0, -2000), pt(0, -1000));
    assert_eq!(closest(&list, 3000, 4000), pt(600, 800));
    assert_eq!(closest(&list, 300, 400), pt(600, 800));
    assert_eq!(closest(&list, 600, 800), pt(600, 800));
    // at the centre every point is as near: the start of the first arc is given
    assert_eq!(closest(&list, 0, 0), pt(-1000, 0));
}

#[test]
fn annulus_has_a_hole() {
    let mut list = circle(1000, CURVATURE_ONE);
    list.extend(circle(400, -CURVATURE_ONE));
    // in the hole: outside
    assert_eq!(sdf(&list, 0, 0), 400);
    assert_eq!(sdf(&list, 100, 50), 288);
    assert_eq!(sdf(&list, 399, 0), 1);
    assert_eq!(sdf(&list, 0, 390), 10);
    assert!(!inside_arc_list(&list, &pt(0, 0)));
    assert!(!inside_arc_list(&list, &pt(-200, 300)));
    // in the material: inside
    assert_eq!(sdf(&list, 700, 0), -300);
    assert_eq!(sdf(&list, -700, 0), -300);
    assert_eq!(sdf(&list, 0, -700), -300);
    assert_eq!(sdf(&list, 500, 500), -292);
    assert_eq!(sdf(&list, 401, 0), -1);
    assert_eq!(sdf(&list, 0, 410), -10);
    assert!(inside_arc_list(&list, &pt(700, 0)));
    assert!(inside_arc_list(&list, &pt(-500, -500)));
    // beyond the outer circle: outside
    assert_eq!(sdf(&list, 1500, 0), 500);
    assert!(!inside_arc_list(&list, &pt(1500, 0)));
    // the same with both circles wound the same way
    let mut same = circle(1000, CURVATURE_ONE);
    same.extend(circle(400, CURVATURE_ONE));
    assert_eq!(sdf(&same, 0, 0), 400);
    assert_eq!(sdf(&same, 700, 0), -300);
}

#[test]
fn square_distances_and_closest_points() {
    let list = square();
    assert_eq!(sdf(&list, 50, 50), -50);
    assert_eq!(sdf(&list, 10, 50), -10);
    assert_eq!(sdf(&list, 150, 50), 50);
    assert_eq!(sdf(&list, 50, -30), 30);
    assert_eq!(sdf(&list, 130, 140), 50);
    assert_eq!(sdf(&list, -50, 50), 50);
    assert_eq!(sdf(&list, 0, 0), 0);
    assert_eq!(sdf(&list, 100, 50), 0);
    assert_eq!(closest(&list, 50, 50), pt(50, 0));
    assert_eq!(closest(&list, 10, 50), pt(0, 50));
    assert_eq!(closest(&list, 150, 50), pt(100, 50));
    assert_eq!(closest(&list, 130, 140), pt(100, 100));
    assert_eq!(closest(&list, -50, 50), pt(0, 50));
    assert!(inside_arc_list(&list, &pt(50, 50)));
    assert!(inside_arc_list(&list, &pt(1, 99)));
    assert!(!inside_arc_list(&list, &pt(150, 50)));
    assert!(!inside_arc_list(&list, &pt(50, 101)));
    assert!(!inside_arc_list(&list, &pt(-1, 50)));
}

#[test]
fn an_open_contour_is_closed_by_a_straight_arc() {
    // three sides of a square: the fourth is implied
    let open = vec![ep(0, 0, MOVE_TO), ep(100, 0, 0), ep(100, 100, 0), ep(0, 100, 0)];
    let mut closed = open.clone();
    closed.push(ep(0, 0, 0));
    for (x, y) in [(50, 50), (5, 50), (-20, 50), (300, 300), (0, 0)] {
        assert_eq!(sdf(&open, x, y), sdf(&closed, x, y));
    }
    assert_eq!(sdf(&open, 5, 50), -5);
}

#[test]
fn empty_list_gives_the_sentinel() {
    let none: Vec<ArcEndpoint> = Vec::new();
    assert_eq!(sdf(&none, 0, 0), SDF_INFINITY);
    assert_eq!(sdf(&none, -5, 77), SDF_INFINITY);
    assert_eq!(closest(&none, 1, 1), pt(i64::MIN, i64::MIN));
    assert!(!inside_arc_list(&none, &pt(0, 0)));
    let lone = vec![ep(5, 5, MOVE_TO)];
    assert_eq!(sdf(&lone, 0, 0), SDF_INFINITY);
    let arcs: Vec<Arc> = Vec::new();
    assert_eq!(sdf_from_arcs(&arcs, &pt(0, 0)), SDF_INFINITY);
    assert_eq!(min_distance(&arcs, &pt(0, 0)), SDF_INFINITY);
    assert_eq!(closest_point_on_arcs(&arcs, &pt(0, 0)), None);
    assert!(!inside_arcs(&arcs, &pt(0, 0)));
    assert_eq!(SDF_INFINITY, i64::MAX);
}

#[test]
fn the_first_of_equally_near_arcs_is_the_nearest() {
    let arcs = arc_list_arcs(&square());
    assert_eq!(arcs.len(), 4);
    assert_eq!(nearest_index(&arcs, &pt(50, 50)), 0);
    assert_eq!(nearest_index(&arcs, &pt(90, 50)), 1);
    assert_eq!(nearest_index(&arcs, &pt(50, 90)), 2);
    assert_eq!(nearest_index(&arcs, &pt(10, 50)), 3);
    assert_eq!(closest_point_on_arcs(&arcs, &pt(90, 50)), Some(pt(100, 50)));
    assert_eq!(min_distance(&arcs, &pt(90, 50)), 10);
    assert_eq!(sdf_from_arcs(&arcs, &pt(90, 50)), -10);
}

#[test]
fn repeated_calls_give_the_same_result() {
    let mut list = circle(1000, CURVATURE_ONE);
    list.extend(circle(400, -CURVATURE_ONE));
    list.extend(vec![ep(-50, -50, MOVE_TO), ep(50, -50, 3000), ep(0, 60, -7000)]);
    let copy = list.clone();
    for x in -12..=12 {
        for y in -12..=12 {
            let p = pt(x * 97, y * 89);
            let mut q1 = pt(0, 0);
            let mut q2 = pt(1, 1);
            let first = sdf_from_arc_list(&list, &p, Some(&mut q1));
            let second = sdf_from_arc_list(&list, &p, Some(&mut q2));
            let third = sdf_from_arc_list(&copy, &p, None);
            assert_eq!(first, second);
            assert_eq!(first, third);
            assert_eq!(q1, q2);
            assert_eq!(inside_arc_list(&list, &p), first < 0 || (first == 0 && inside_arc_list(&copy, &p)));
        }
    }
}

#[test]
fn sign_agrees_with_a_ray_through_the_arcs_taken_finely() {
    // arc polygons, and the crossings of a ray counted on a fine polyline;
    // the second has arcs of more than a half circle
    let lists = [
        vec![
            ep(-300, -200, MOVE_TO),
            ep(250, -260, 9000),
            ep(320, 180, -5000),
            ep(-40, 330, 16384),
            ep(-280, 90, -12000),
        ],
        vec![
            ep(-300, -200, MOVE_TO),
            ep(250, -260, 30000),
            ep(320, 180, -5000),
            ep(-40, 330, -40000),
            ep(-280, 90, -12000),
        ],
    ];
    for list in lists {
        crossings_agree(&list);
    }
}

fn crossings_agree(list: &[ArcEndpoint]) {
    let arcs = arc_list_arcs(list);
    assert_eq!(arcs.len(), 5);
    for ix in -20..=20 {
        for iy in -20..=20 {
            let (px, py) = (ix as f64 * 23.0 + 0.5, iy as f64 * 19.0 + 0.25);
            let p = pt(ix * 23, iy * 19);
            if min_distance(&arcs, &p) < 3 {
                continue;
            }
            let mut crossings = 0;
            for a in &arcs {
                let d = a.d as f64 / CURVATURE_ONE as f64;
                let (x0, y0, x1, y1) =
                    (a.p0.x as f64, a.p0.y as f64, a.p1.x as f64, a.p1.y as f64);
                let (cx, cy) = (x1 - x0, y1 - y0);
                let mut before = (x0, y0);
                for i in -199..=200 {
                    let u = i as f64 / 200.0;
                    let w = 1.0 + u * u * d * d;
                    let along = u * (1.0 + d * d) / w;
                    let out = d * (1.0 - u * u) / w;
                    let now = (
                        (x0 + x1) / 2.0 + along * cx / 2.0 + out * cy / 2.0,
                        (y0 + y1) / 2.0 + along * cy / 2.0 - out * cx / 2.0,
                    );
                    if (before.1 > py) != (now.1 > py) {
                        let x = before.0 + (py - before.1) * (now.0 - before.0) / (now.1 - before.1);
                        if x > px {
                            crossings += 1;
                        }
                    }
                    before = now;
                }
            }
            assert_eq!(inside_arcs(&arcs, &p), crossings % 2 == 1, "at {:?}", p);
        }
    }
}

#[test]
fn far_arcs_are_passed_over_within_a_reach() {
    let mut list = circle(1000, CURVATURE_ONE);
    list.extend(circle(400, -CURVATURE_ONE));
    list.extend(vec![ep(5000, 5000, MOVE_TO), ep(5100, 5000, 0), ep(5100, 5100, 3000)]);
    let arcs = arc_list_arcs(&list);
    let boxes = arcs_boxes(&arcs);
    assert_eq!(boxes.len(), arcs.len());
    for (a, b) in arcs.iter().zip(boxes.iter()) {
        assert_eq!(a.extents(), *b);
    }
    for x in -15..=15 {
        for y in -15..=15 {
            let p = pt(x * 401, y * 397);
            let full = sdf_from_arcs(&arcs, &p);
            // a reach that takes in every box changes nothing
            assert_eq!(sdf_from_arcs_near(&arcs, &boxes, &p, 20000), full);
            // wherever the distance is within the reach, so is the nearest arc
            for reach in [0i64, 50, 300, 1000] {
                let near = sdf_from_arcs_near(&arcs, &boxes, &p, reach);
                if full.abs() <= reach {
                    assert_eq!(near, full, "at {:?} reach {}", p, reach);
                } else {
                    assert!(near.abs() >= full.abs());
                    assert_eq!(near < 0, full < 0);
                }
            }
        }
    }
    // nothing within reach: the sentinel, with the sign of the side
    let p = pt(3000, 3000);
    assert_eq!(sdf_from_arcs_near(&arcs, &boxes, &p, 100), SDF_INFINITY);
    assert_eq!(sdf_from_arcs_near(&arcs, &boxes, &p, 1999), SDF_INFINITY);
    assert_eq!(sdf_from_arcs_near(&arcs, &boxes, &p, 2000), sdf_from_arcs(&arcs, &p));
    assert_eq!(sdf_from_arcs_near(&arcs, &boxes, &pt(700, 0), -1), -SDF_INFINITY);
    // the origin lies in the boxes of the circles
    assert_eq!(sdf_from_arcs_near(&arcs, &boxes, &pt(0, 0), 0), 400);
}

#[test]
fn gap_between_a_point_and_a_box() {
    let b = Extents { min_x: 0, min_y: 0, max_x: 10, max_y: 5 };
    assert!(box_within_reach(&b, &pt(5, 3), 0));
    assert!(box_within_reach(&b, &pt(0, 0), 0));
    assert!(!box_within_reach(&b, &pt(5, 3), -1));
    assert!(box_within_reach(&b, &pt(13, 3), 3));
    assert!(!box_within_reach(&b, &pt(13, 3), 2));
    assert!(box_within_reach(&b, &pt(-4, 9), 4));
    assert!(!box_within_reach(&b, &pt(-5, 9), 4));
    assert!(!box_within_reach(&Extents::empty(), &pt(0, 0), i64::MAX));
}

#[test]
fn magnitude_is_the_distance_to_the_nearest_point_of_the_arcs() {
    let mut state: u64 = 0x9E3779B97F4A7C15;
    let mut next = |span: i64| -> i64 {
        state ^= state << 13;
        state ^= state >> 7;
        state ^= state << 17;
        (state % (2 * span as u64 + 1)) as i64 - span
    };
    for round in 0..60 {
        let n = 2 + round % 4;
        let mut list = vec![ep(next(500), next(500), MOVE_TO)];
        for _ in 0..n {
            // straight arcs, arcs of at most a half circle, and wider ones
            let d = if round % 3 == 0 {
                0
            } else if round % 3 == 1 {
                next(CURVATURE_ONE)
            } else {
                next(3 * CURVATURE_ONE)
            };
            list.push(ep(next(500), next(500), d));
        }
        let arcs = arc_list_arcs(&list);
        for _ in 0..10 {
            let p = pt(next(900), next(900));
            let reported = sdf_from_arcs(&arcs, &p).abs() as f64;
            // the arcs taken at many points
            let mut nearest = f64::INFINITY;
            for a in &arcs {
                let d = a.d as f64 / CURVATURE_ONE as f64;
                let (x0, y0, x1, y1) =
                    (a.p0.x as f64, a.p0.y as f64, a.p1.x as f64, a.p1.y as f64);
                let (cx, cy) = (x1 - x0, y1 - y0);
                for i in -2000..=2000 {
                    let u = i as f64 / 2000.0;
                    let w = 1.0 + u * u * d * d;
                    let along = u * (1.0 + d * d) / w;
                    let out = d * (1.0 - u * u) / w;
                    let x = (x0 + x1) / 2.0 + along * cx / 2.0 + out * cy / 2.0;
                    let y = (y0 + y1) / 2.0 + along * cy / 2.0 - out * cx / 2.0;
                    nearest = nearest.min((x - p.x as f64).hypot(y - p.y as f64));
                }
            }
            // the distance is rounded down, but to one for a point that
            // lies closer than that and on none of the arcs
            if reported == 1.0 && nearest < 1.0 {
                assert!(nearest > 0.0, "{:?} at {:?}", list, p);
            } else {
                assert!(reported <= nearest + 1e-6, "{:?} at {:?}", list, p);
            }
            assert!(nearest < reported + 1.5, "{:?} at {:?}", list, p);
        }
    }
}

#[test]
fn a_point_off_the_arcs_is_never_at_the_distance_zero() {
    // a square with a hole in the shape of a diamond
    let list = vec![
        ep(0, 0, MOVE_TO),
        ep(1000, 0, 0),
        ep(1000, 1000, 0),
        ep(0, 1000, 0),
        ep(500, 400, MOVE_TO),
        ep(400, 500, 0),
        ep(500, 600, 0),
        ep(600, 500, 0),
    ];
    // on an edge of the hole, and less than one unit to either side of it
    assert_eq!(sdf(&list, 550, 450), 0);
    assert_eq!(sdf(&list, 550, 451), 1);
    assert_eq!(sdf(&list, 550, 449), -1);
    assert_eq!(sdf(&list, 550, 452), 1);
    assert_eq!(sdf(&list, 550, 448), -1);
    assert_eq!(sdf(&list, 500, 500), 70);
    assert_eq!(sdf(&list, 1, 1), -1);
    assert_eq!(sdf(&list, 0, 500), 0);
    assert_eq!(sdf(&list, 1000, 1000), 0);
    assert_eq!(sdf(&list, 1001, 500), 1);
    let arcs = arc_list_arcs(&list);
    assert_eq!(sdf_from_arcs(&arcs, &pt(550, 451)), 1);
    assert_eq!(sdf_from_arcs(&arcs, &pt(550, 449)), -1);
    assert!(!inside_arcs(&arcs, &pt(550, 451)));
    assert!(inside_arcs(&arcs, &pt(550, 449)));
    // the sign of every point near the edge is that of its side
    for x in 500..590 {
        for dy in -3i64..=3 {
            let d = sdf(&list, x, x - 100 + dy);
            assert_eq!(d.signum(), dy.signum(), "x {} dy {}", x, dy);
        }
    }
}

#[test]
fn arcs_of_more_than_a_half_circle() {
    // from (-300, 0) to (300, 0) by way of (0, -600): the centre is
    // (0, -225) and the radius 375
    let a = arc(-300, 0, 300, 0, 2 * CURVATURE_ONE);
    assert!(!a.in_wedge(&pt(0, 0)));
    assert!(!a.in_wedge(&pt(0, -100)));
    assert!(!a.in_wedge(&pt(0, 200)));
    assert!(a.in_wedge(&pt(0, -225)));
    assert!(a.in_wedge(&pt(400, 0)));
    assert_eq!(a.distance(&pt(0, 0)), 300);
    assert_eq!(a.distance(&pt(0, -100)), 316);
    assert_eq!(a.distance(&pt(0, 200)), 360);
    assert_eq!(a.distance(&pt(0, -225)), 375);
    assert_eq!(a.distance(&pt(0, -600)), 0);
    assert_eq!(a.distance(&pt(0, -601)), 1);
    assert_eq!(a.distance(&pt(0, -700)), 100);
    assert_eq!(a.distance(&pt(400, 0)), 83);
    assert_eq!(a.distance(&pt(300, 10)), 10);
    assert_eq!(a.distance(&pt(375, -225)), 0);
    assert_eq!(a.nearest_point(&pt(0, -700)), pt(0, -600));
    assert_eq!(a.nearest_point(&pt(400, 0)), pt(327, -41));
    let b = arc(-300, 0, 300, 0, -2 * CURVATURE_ONE);
    assert_eq!(b.distance(&pt(0, 700)), 100);
    assert!(!b.in_wedge(&pt(0, 0)));
    assert!(b.in_wedge(&pt(0, 225)));
    // the widest arc that is held: its curvature is thirty-two
    let c = arc(0, 0, 10, 0, 32 * CURVATURE_ONE);
    assert_eq!(c.distance(&pt(5, -100)), 60);
    // the arc with its chord, as a closed contour
    let list = vec![ep(-300, 0, MOVE_TO), ep(300, 0, 2 * CURVATURE_ONE), ep(-300, 0, 0)];
    assert_eq!(sdf(&list, 0, -100), -100);
    assert_eq!(sdf(&list, 0, -300), -300);
    assert_eq!(sdf(&list, 0, 100), 100);
    assert_eq!(sdf(&list, 0, -601), 1);
    assert_eq!(sdf(&list, 0, -599), -1);
    assert_eq!(sdf(&list, 0, -600), 0);
    assert_eq!(sdf(&list, 299, -300), -66);
}
