use glyphy::arc_list::arc_list_arcs;
use glyphy::extents::{arc_list_extents, arcs_extents};
use glyphy::geometry::{Arc, ArcEndpoint, Extents, Point, CURVATURE_ONE, MOVE_TO};

fn pt(x: i64, y: i64) -> Point {
    Point::new(x, y)
}

fn arc(x0: i64, y0: i64, x1: i64, y1: i64, d: i64) -> Arc {
    Arc { p0: pt(x0, y0), p1: pt(x1, y1), d }
}

fn ep(x: i64, y: i64, d: i64) -> ArcEndpoint {
    ArcEndpoint { p: pt(x, y), d }
}

fn bx(min_x: i64, min_y: i64, max_x: i64, max_y: i64) -> Extents {
    Extents { min_x, min_y, max_x, max_y }
}

/// The point of the arc at the parameter `u`, which runs from -1 to 1.
fn point_of_arc(a: &Arc, u: f64) -> (f64, f64) {
    let d = a.d as f64 / CURVATURE_ONE as f64;
    let (x0, y0, x1, y1) = (a.p0.x as f64, a.p0.y as f64, a.p1.x as f64, a.p1.y as f64);
    let (cx, cy) = (x1 - x0, y1 - y0);
    let w = 1.0 + u * u * d * d;
    let along = u * (1.0 + d * d) / w;
    let out = d * (1.0 - u * u) / w;
    (
        (x0 + x1) / 2.0 + along * cx / 2.0 + out * cy / 2.0,
        (y0 + y1) / 2.0 + along * cy / 2.0 - out * cx / 2.0,
    )
}

#[test]
fn box_of_a_straight_arc_is_the_box_of_its_ends() {
    assert_eq!(arc(0, 0, 1, 0, 0).extents(), bx(0, 0, 1, 0));
    assert_eq!(arc(10, -3, -4, 8, 0).extents(), bx(-4, -3, 10, 8));
    assert_eq!(arc(5, 5, 5, 5, 0).extents(), bx(5, 5, 5, 5));
}

#[test]
fn box_of_a_curved_arc_holds_its_bulge() {
    assert_eq!(arc(-100, 0, 100, 0, 16384).extents(), bx(-100, -100, 100, 0));
    assert_eq!(arc(-100, 0, 100, 0, -16384).extents(), bx(-100, 0, 100, 100));
    // a quarter of a turn that passes the rightmost and the lowest point of its circle
    assert_eq!(arc(0, 0, 100, 100, 8192).extents(), bx(0, -1, 101, 100));
    assert_eq!(arc(0, 0, 100, 100, -8192).extents(), bx(-1, 0, 100, 101));
    // an arc that passes no farthest point of its circle: the box of its ends
    assert_eq!(arc(10, 20, -35, 67, 5000).extents(), bx(-35, 20, 10, 67));
    assert_eq!(arc(1000, 0, 0, 1000, 6783).extents(), bx(0, 0, 1000, 1000));
    assert_eq!(arc(0, 0, 100, 0, 8192).extents(), bx(0, -25, 100, 0));
    assert_eq!(arc(0, 0, 0, 100, 8192).extents(), bx(0, 0, 25, 100));
    assert_eq!(arc(0, 0, 0, 100, -16384).extents(), bx(-50, 0, 0, 100));
    // rounded outwards: the apex lies 3.5 off the chord
    assert_eq!(arc(0, 0, 7, 0, -16384).extents(), bx(0, 0, 7, 4));
    assert_eq!(arc(0, 0, 7, 0, 16384).extents(), bx(0, -4, 7, 0));
    assert_eq!(arc(0, 0, 3, 0, 1).extents(), bx(0, -1, 3, 0));
    assert_eq!(arc(0, 0, 3, 0, -1).extents(), bx(0, 0, 3, 1));
    assert_eq!(arc(5, 5, 5, 5, 16384).extents(), bx(5, 5, 5, 5));
}

#[test]
fn box_of_a_circle_is_the_box_of_its_radius() {
    let list = vec![ep(-1000, 0, MOVE_TO), ep(1000, 0, 16384), ep(-1000, 0, 16384)];
    assert_eq!(arc_list_extents(&list), bx(-1000, -1000, 1000, 1000));
    let quarters = vec![
        ep(1000, 0, MOVE_TO),
        ep(0, 1000, 6783),
        ep(-1000, 0, 6783),
        ep(0, -1000, 6783),
        ep(1000, 0, 6783),
    ];
    assert_eq!(arc_list_extents(&quarters), bx(-1000, -1000, 1000, 1000));
}

#[test]
fn box_of_a_list_holds_every_contour() {
    let list = vec![
        ep(0, 0, MOVE_TO),
        ep(100, 0, 0),
        ep(100, 100, 8192),
        ep(0, 100, -3000),
        ep(300, 300, MOVE_TO),
        ep(400, 300, 16384),
        ep(300, 300, 16384),
    ];
    assert_eq!(arc_list_extents(&list), bx(0, 0, 400, 350));
    let arcs = arc_list_arcs(&list);
    assert_eq!(
        arcs,
        vec![
            arc(0, 0, 100, 0, 0),
            arc(100, 0, 100, 100, 8192),
            arc(100, 100, 0, 100, -3000),
            arc(0, 100, 0, 0, 0),
            arc(300, 300, 400, 300, 16384),
            arc(400, 300, 300, 300, 16384),
        ]
    );
    assert_eq!(arcs_extents(&arcs), bx(0, 0, 400, 350));
}

#[test]
fn empty_and_single_point_lists_have_an_empty_box() {
    let none: Vec<ArcEndpoint> = Vec::new();
    let e = arc_list_extents(&none);
    assert!(e.has_no_point());
    assert_eq!(e, Extents::empty());
    assert_eq!(e, bx(i64::MAX, i64::MAX, i64::MIN, i64::MIN));
    let lone = vec![ep(5, 5, MOVE_TO)];
    assert!(arc_list_extents(&lone).has_no_point());
    assert!(arc_list_arcs(&lone).is_empty());
    assert!(!bx(0, 0, 0, 0).has_no_point());
}

#[test]
fn a_list_that_starts_without_a_move_starts_at_the_origin() {
    let list = vec![ep(5, 5, 0)];
    assert_eq!(arc_list_arcs(&list), vec![arc(0, 0, 5, 5, 0), arc(5, 5, 0, 0, 0)]);
    assert_eq!(arc_list_extents(&list), bx(0, 0, 5, 5));
}

#[test]
fn boxes_grow_by_union() {
    let mut e = Extents::empty();
    e.extend(&bx(1, 2, 3, 4));
    assert_eq!(e, bx(1, 2, 3, 4));
    e.extend(&bx(-5, 3, 2, 9));
    assert_eq!(e, bx(-5, 2, 3, 9));
    e.extend(&Extents::empty());
    assert_eq!(e, bx(-5, 2, 3, 9));
}

#[test]
fn every_point_of_every_arc_lies_in_the_box() {
    // a fixed sequence of numbers that look random
    let mut state: u64 = 0x2545F4914F6CDD1D;
    let mut next = |span: i64| -> i64 {
        state ^= state << 13;
        state ^= state >> 7;
        state ^= state << 17;
        (state % (2 * span as u64 + 1)) as i64 - span
    };
    for round in 0..200 {
        let span = if round % 2 == 0 { 1000 } else { 1_048_576 };
        let mut list = vec![ep(next(span), next(span), MOVE_TO)];
        for _ in 0..5 {
            list.push(ep(next(span), next(span), next(CURVATURE_ONE)));
        }
        let e = arc_list_extents(&list);
        for a in arc_list_arcs(&list) {
            let own = a.extents();
            for i in -50..=50 {
                let (x, y) = point_of_arc(&a, i as f64 / 50.0);
                let slack = 1e-6 * span as f64;
                for b in [own, e] {
                    assert!(b.min_x as f64 - slack <= x && x <= b.max_x as f64 + slack);
                    assert!(b.min_y as f64 - slack <= y && y <= b.max_y as f64 + slack);
                }
            }
            // the box is no larger than it has to be, but for the rounding
            let mut reach = [f64::INFINITY, f64::INFINITY, f64::NEG_INFINITY, f64::NEG_INFINITY];
            for i in -4000..=4000 {
                let (x, y) = point_of_arc(&a, i as f64 / 4000.0);
                reach = [reach[0].min(x), reach[1].min(y), reach[2].max(x), reach[3].max(y)];
            }
            let slack = 1.01 + 1e-4 * span as f64;
            assert!(reach[0] - own.min_x as f64 <= slack && reach[1] - own.min_y as f64 <= slack);
            assert!(own.max_x as f64 - reach[2] <= slack && own.max_y as f64 - reach[3] <= slack);
            // the ends and the apex
            let (x, y) = point_of_arc(&a, -1.0);
            assert!((x - a.p0.x as f64).abs() < 1e-6 && (y - a.p0.y as f64).abs() < 1e-6);
            let (x, y) = point_of_arc(&a, 1.0);
            assert!((x - a.p1.x as f64).abs() < 1e-6 && (y - a.p1.y as f64).abs() < 1e-6);
        }
    }
}

#[test]
fn box_of_an_arc_of_more_than_a_half_circle() {
    assert_eq!(arcs_extents(&[arc(-300, 0, 300, 0, 2 * CURVATURE_ONE)]), bx(-375, -600, 375, 0));
    assert_eq!(arcs_extents(&[arc(-300, 0, 300, 0, -2 * CURVATURE_ONE)]), bx(-375, 0, 375, 600));
    assert_eq!(arcs_extents(&[arc(0, 0, 10, 0, 32 * CURVATURE_ONE)]), bx(-76, -160, 86, 0));
    assert_eq!(
        arc_list_extents(&[ep(-300, 0, MOVE_TO), ep(300, 0, 2 * CURVATURE_ONE), ep(-300, 0, 0)]),
        bx(-375, -600, 375, 0)
    );
    let mut state: u64 = 0x2545F4914F6CDD1D;
    let mut next = |span: i64| -> i64 {
        state ^= state << 13;
        state ^= state >> 7;
        state ^= state << 17;
        (state % (2 * span as u64 + 1)) as i64 - span
    };
    for _ in 0..200 {
        let d = CURVATURE_ONE + 1 + next(100000).abs();
        let a = arc(next(3000), next(3000), next(3000), next(3000), if next(1) < 0 { -d } else { d });
        let e = arcs_extents(&[a]);
        for i in -500..=500 {
            let (x, y) = point_of_arc(&a, i as f64 / 500.0);
            assert!(e.min_x as f64 <= x + 1e-6 && x - 1e-6 <= e.max_x as f64, "{:?}", a);
            assert!(e.min_y as f64 <= y + 1e-6 && y - 1e-6 <= e.max_y as f64, "{:?}", a);
        }
    }
}
