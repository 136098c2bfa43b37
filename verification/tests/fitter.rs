use glyphy::fitter::{
    approximate, approximate_conic, approximate_cubic, approximate_line, converges, drift,
    fine_radius2, from_center, shares, Bezier, DEFAULT_TOLERANCE, MAX_DEPTH,
};
use glyphy::geometry::{Arc, Point, CURVATURE_ONE};

fn pt(x: i64, y: i64) -> Point {
    Point::new(x, y)
}

fn arc(x0: i64, y0: i64, x1: i64, y1: i64, d: i64) -> Arc {
    Arc { p0: pt(x0, y0), p1: pt(x1, y1), d }
}

/// The distance from `(x, y)` to `arc`, in floating point.
fn distance_to_arc(a: &Arc, x: f64, y: f64) -> f64 {
    let (x0, y0, x1, y1) = (a.p0.x as f64, a.p0.y as f64, a.p1.x as f64, a.p1.y as f64);
    let (cx, cy) = (x1 - x0, y1 - y0);
    let to_ends = ((x - x0).hypot(y - y0)).min((x - x1).hypot(y - y1));
    if a.d == 0 {
        let l2 = cx * cx + cy * cy;
        if l2 == 0.0 {
            return to_ends;
        }
        let t = (((x - x0) * cx + (y - y0) * cy) / l2).clamp(0.0, 1.0);
        return (x - x0 - t * cx).hypot(y - y0 - t * cy);
    }
    let d = a.d as f64 / CURVATURE_ONE as f64;
    let k = (1.0 - d * d) / (4.0 * d);
    let (mx, my) = ((x0 + x1) / 2.0 - cy * k, (y0 + y1) / 2.0 + cx * k);
    let r = (x0 - mx).hypot(y0 - my);
    let (u, v) = (1.0 - d * d, 2.0 * d);
    let w0 = (x - x0) * (cx * u + cy * v) + (y - y0) * (cy * u - cx * v);
    let w1 = (x - x1) * (cx * u - cy * v) + (y - y1) * (cy * u + cx * v);
    if w0 >= 0.0 && w1 <= 0.0 {
        ((x - mx).hypot(y - my) - r).abs()
    } else {
        to_ends
    }
}

/// The largest distance from the cubic curve to the chain of arcs, the curve
/// taken at a thousand points.
fn worst_distance(p: [(f64, f64); 4], arcs: &[Arc]) -> f64 {
    let mut worst = 0.0f64;
    for i in 0..=1000 {
        let t = i as f64 / 1000.0;
        let s = 1.0 - t;
        let w = [s * s * s, 3.0 * s * s * t, 3.0 * s * t * t, t * t * t];
        let x = w[0] * p[0].0 + w[1] * p[1].0 + w[2] * p[2].0 + w[3] * p[3].0;
        let y = w[0] * p[0].1 + w[1] * p[1].1 + w[2] * p[2].1 + w[3] * p[3].1;
        let mut nearest = f64::INFINITY;
        for a in arcs {
            nearest = nearest.min(distance_to_arc(a, x, y));
        }
        worst = worst.max(nearest);
    }
    worst
}

fn assert_chain(arcs: &[Arc], from: Point, to: Point) {
    assert!(!arcs.is_empty());
    assert_eq!(arcs[0].p0, from);
    assert_eq!(arcs[arcs.len() - 1].p1, to);
    for i in 0..arcs.len() - 1 {
        assert_eq!(arcs[i].p1, arcs[i + 1].p0);
    }
    for a in arcs {
        assert!(-CURVATURE_ONE <= a.d && a.d <= CURVATURE_ONE);
    }
}

#[test]
fn constants_are_as_documented() {
    assert_eq!(MAX_DEPTH, 10);
    assert_eq!(DEFAULT_TOLERANCE, 8);
    assert_eq!(CURVATURE_ONE, 16384);
}

#[test]
fn a_line_is_one_straight_arc() {
    let pairs = [
        ((0, 0), (1, 0)),
        ((3, -7), (1000, 450)),
        ((-1048576, 1048576), (1048576, -1048576)),
        ((5, 5), (5, 5)),
        ((0, 0), (0, -9)),
    ];
    for ((x0, y0), (x1, y1)) in pairs {
        let a = Arc::from_line(&pt(x0, y0), &pt(x1, y1));
        assert_eq!(a, arc(x0, y0, x1, y1, 0));
        let arcs = approximate_line(&pt(x0, y0), &pt(x1, y1));
        assert_eq!(arcs, vec![arc(x0, y0, x1, y1, 0)]);
    }
}

#[test]
fn a_line_given_as_a_curve_is_fitted_exactly() {
    let b = Bezier::line(&pt(3, -7), &pt(1000, 450));
    assert_eq!(b.q1, pt(1006, 436));
    assert_eq!(b.q2, pt(2003, 893));
    let a = b.fit_arc();
    assert_eq!(a, arc(3, -7, 1000, 450, 0));
    assert_eq!(b.deviation(&a), 0);
    let mut arcs = Vec::new();
    approximate(&b, 0, MAX_DEPTH, &mut arcs);
    assert_eq!(arcs, vec![arc(3, -7, 1000, 450, 0)]);
}

#[test]
fn conic_fit_of_a_quarter_turn() {
    let (a, error) = Arc::from_conic(&pt(1000, 0), &pt(1000, 1000), &pt(0, 1000));
    assert_eq!(a, arc(1000, 0, 0, 1000, 8192));
    assert_eq!(error, 20);
    let b = Bezier::conic(&pt(1000, 0), &pt(1000, 1000), &pt(0, 1000));
    assert_eq!(b.q1, pt(3000, 2000));
    assert_eq!(b.q2, pt(2000, 3000));
    assert_eq!(b.deviation(&a), 20);
}

#[test]
fn cubic_fit_values() {
    let (a, error) = Arc::from_cubic(&pt(0, 0), &pt(0, 300), &pt(400, 700), &pt(900, 600));
    assert_eq!(a, arc(0, 0, 900, 600, -6932));
    assert_eq!(error, 15);
    let b = Bezier::cubic(&pt(0, 0), &pt(0, 300), &pt(400, 700), &pt(900, 600));
    assert_eq!(b.deviation(&a), 15);
}

#[test]
fn halves_of_a_cubic() {
    let b = Bezier::cubic(&pt(0, 0), &pt(0, 300), &pt(400, 700), &pt(900, 600));
    let (left, right) = b.split();
    assert_eq!(left, Bezier { p0: pt(0, 0), q1: pt(0, 450), q2: pt(300, 975), p3: pt(263, 450) });
    assert_eq!(
        right,
        Bezier { p0: pt(263, 450), q1: pt(1275, 1725), q2: pt(1950, 1950), p3: pt(900, 600) }
    );
}

#[test]
fn conic_chain_at_several_tolerances() {
    let (p0, p1, p2) = (pt(1000, 0), pt(1000, 1000), pt(0, 1000));
    assert_eq!(
        approximate_conic(&p0, &p1, &p2, 4),
        vec![
            arc(1000, 0, 938, 438, 1298),
            arc(938, 438, 750, 750, 1914),
            arc(750, 750, 438, 938, 1914),
            arc(438, 938, 0, 1000, 1298),
        ]
    );
    assert_eq!(
        approximate_conic(&p0, &p1, &p2, 16),
        vec![arc(1000, 0, 750, 750, 3277), arc(750, 750, 0, 1000, 3277)]
    );
    assert_eq!(approximate_conic(&p0, &p1, &p2, 20), vec![arc(1000, 0, 0, 1000, 8192)]);
    assert_eq!(approximate_conic(&p0, &p1, &p2, 19).len(), 2);
    assert_eq!(approximate_conic(&p0, &p1, &p2, 8).len(), 2);
    assert_eq!(approximate_conic(&p0, &p1, &p2, 7).len(), 4);
    // a tolerance that the roundings of the halvings use up is never met
    assert_eq!(approximate_conic(&p0, &p1, &p2, 1).len(), 1024);
    assert_eq!(approximate_conic(&p0, &p1, &p2, 0).len(), 1024);
}

#[test]
fn cubic_chain_at_several_tolerances() {
    let (p0, p1, p2, p3) = (pt(0, 0), pt(0, 300), pt(400, 700), pt(900, 600));
    assert_eq!(
        approximate_cubic(&p0, &p1, &p2, &p3, 4),
        vec![
            arc(0, 0, 70, 234, -2131),
            arc(70, 234, 263, 450, -1590),
            arc(263, 450, 900, 600, -3577),
        ]
    );
    assert_eq!(
        approximate_cubic(&p0, &p1, &p2, &p3, 8),
        vec![arc(0, 0, 263, 450, -3615), arc(263, 450, 900, 600, -3577)]
    );
    assert_eq!(approximate_cubic(&p0, &p1, &p2, &p3, 14).len(), 2);
    assert_eq!(approximate_cubic(&p0, &p1, &p2, &p3, 1).len(), 1024);
    assert_eq!(approximate_cubic(&p0, &p1, &p2, &p3, 15), vec![arc(0, 0, 900, 600, -6932)]);
}

#[test]
fn coincident_points_give_one_arc_of_no_length() {
    let p = pt(5, 7);
    let (a, error) = Arc::from_conic(&p, &p, &p);
    assert_eq!(a, arc(5, 7, 5, 7, 0));
    assert_eq!(error, 0);
    let (a, error) = Arc::from_cubic(&p, &p, &p, &p);
    assert_eq!(a, arc(5, 7, 5, 7, 0));
    assert_eq!(error, 0);
    assert_eq!(approximate_conic(&p, &p, &p, 1), vec![arc(5, 7, 5, 7, 0)]);
    assert_eq!(approximate_cubic(&p, &p, &p, &p, 0), vec![arc(5, 7, 5, 7, 0)]);
}

#[test]
fn a_curve_that_returns_to_its_start() {
    let (a, error) = Arc::from_cubic(&pt(5, 7), &pt(100, 7), &pt(-100, 7), &pt(5, 7));
    assert_eq!(a, arc(5, 7, 5, 7, 0));
    assert_eq!(error, 105);
    let arcs = approximate_cubic(&pt(5, 7), &pt(100, 7), &pt(-100, 7), &pt(5, 7), 8);
    assert_eq!(arcs.len(), 6);
    assert_chain(&arcs, pt(5, 7), pt(5, 7));
}

#[test]
fn curvature_is_limited_to_a_half_circle() {
    let (a, error) = Arc::from_conic(&pt(0, 0), &pt(50, 1000), &pt(100, 0));
    assert_eq!(a, arc(0, 0, 100, 0, -16384));
    assert_eq!(error, 450);
    let (a, _) = Arc::from_conic(&pt(0, 0), &pt(50, -1000), &pt(100, 0));
    assert_eq!(a.d, 16384);
}

#[test]
fn curvature_is_rounded_to_the_nearest() {
    // the cross product is -120, the squared chord 100: 16384 * (-120) / 400 = -4915.2
    let (a, error) = Arc::from_conic(&pt(0, 0), &pt(7, 3), &pt(10, 0));
    assert_eq!(a, arc(0, 0, 10, 0, -4915));
    assert_eq!(error, 1);
}

#[test]
fn depth_clamp_ends_the_halving() {
    // a tolerance below zero accepts nothing: every piece is halved to the end
    let arcs = approximate_conic(&pt(1000, 0), &pt(1000, 1000), &pt(0, 1000), -1);
    assert_eq!(arcs.len(), 1024);
    assert_chain(&arcs, pt(1000, 0), pt(0, 1000));
    assert_eq!(arcs[0], arc(1000, 0, 1000, 2, 0));
    assert_eq!(arcs[1], arc(1000, 2, 1000, 4, 0));
}

#[test]
fn a_cusp_under_a_tight_tolerance_still_ends() {
    let arcs = approximate_cubic(&pt(0, 0), &pt(1000, 1000), &pt(0, 1000), &pt(1000, 0), 0);
    assert_eq!(arcs.len(), 1024);
    assert_chain(&arcs, pt(0, 0), pt(1000, 0));
    let big = 1_000_000;
    let arcs =
        approximate_cubic(&pt(-big, -big), &pt(big, big), &pt(-big, big), &pt(big, -big), 0);
    assert_eq!(arcs.len(), 1024);
    assert!(arcs.len() <= 1 << MAX_DEPTH);
    assert_chain(&arcs, pt(-big, -big), pt(big, -big));
    let arcs =
        approximate_cubic(&pt(-big, -big), &pt(big, big), &pt(-big, big), &pt(big, -big), -1);
    assert_eq!(arcs.len(), 1024);
    // the curve is its own mirror image, and so is the chain
    assert_eq!(arcs[0], arc(-1000000, -1000000, -994152, -994147, 4));
    assert_eq!(arcs[1023], arc(994152, -994147, 1000000, -1000000, 4));
    for i in 0..1024 {
        let (a, m) = (arcs[i], arcs[1023 - i]);
        assert_eq!((a.p0.x, a.p0.y, a.p1.x, a.p1.y, a.d), (-m.p1.x, m.p1.y, -m.p0.x, m.p0.y, m.d));
    }
}

#[test]
fn depth_given_by_the_caller_is_kept() {
    let b = Bezier::conic(&pt(1000, 0), &pt(1000, 1000), &pt(0, 1000));
    for depth in 0..6u32 {
        let mut arcs = Vec::new();
        approximate(&b, -1, depth, &mut arcs);
        assert_eq!(arcs.len(), 1 << depth);
        assert_chain(&arcs, pt(1000, 0), pt(0, 1000));
    }
    let mut arcs = vec![arc(1, 2, 3, 4, 5)];
    approximate(&b, 1000, 3, &mut arcs);
    assert_eq!(arcs, vec![arc(1, 2, 3, 4, 5), arc(1000, 0, 0, 1000, 8192)]);
}

#[test]
fn chains_stay_within_the_tolerance_of_their_curves() {
    let curves: [[(i64, i64); 4]; 9] = [
        [(0, 0), (0, 300), (400, 700), (900, 600)],
        [(0, 0), (1000, 0), (0, 1000), (1000, 1000)],
        [(10000, 0), (10000, 5523), (5523, 10000), (0, 10000)],
        [(0, 0), (1000, 1000), (0, 1000), (1000, 0)],
        [(-500000, 0), (-500000, 400000), (300000, 900000), (1000000, 1000000)],
        // curves that run past an end and turn back
        [(0, 0), (0, 0), (670, 0), (580, 0)],
        [(0, 0), (-47, -2), (1027, -1), (886, 0)],
        [(0, 0), (273, 0), (400, 0), (380, 0)],
        [(-82286, -35925), (35169, -14527), (90179, -4626), (82744, -6223)],
    ];
    for c in curves {
        for tolerance in [1i64, 4, 8, 16, 64] {
            let arcs = approximate_cubic(
                &pt(c[0].0, c[0].1),
                &pt(c[1].0, c[1].1),
                &pt(c[2].0, c[2].1),
                &pt(c[3].0, c[3].1),
                tolerance,
            );
            assert_chain(&arcs, pt(c[0].0, c[0].1), pt(c[3].0, c[3].1));
            assert!(arcs.len() <= 1 << MAX_DEPTH);
            let b = Bezier::cubic(
                &pt(c[0].0, c[0].1),
                &pt(c[1].0, c[1].1),
                &pt(c[2].0, c[2].1),
                &pt(c[3].0, c[3].1),
            );
            if !converges(&b, tolerance, MAX_DEPTH) {
                // only the roundings of the halvings can use a tolerance up
                assert!(tolerance < 8, "{:?} at {}", c, tolerance);
                assert!(arcs.len() > 64);
                continue;
            }
            assert!(arcs.len() < 64);
            let p = [
                (c[0].0 as f64, c[0].1 as f64),
                (c[1].0 as f64, c[1].1 as f64),
                (c[2].0 as f64, c[2].1 as f64),
                (c[3].0 as f64, c[3].1 as f64),
            ];
            // the curve as it was given is within the tolerance of the chain
            let worst = worst_distance(p, &arcs);
            assert!(
                worst <= tolerance as f64 * (1.0 + 1e-9) + 1e-6,
                "tolerance {} worst {} arcs {}",
                tolerance,
                worst,
                arcs.len()
            );
        }
    }
}

#[test]
fn the_error_of_a_fit_never_understates_the_deviation() {
    let mut state: u64 = 0x0123456789ABCDEF;
    let mut next = |span: i64| -> i64 {
        state ^= state << 13;
        state ^= state >> 7;
        state ^= state << 17;
        (state % (2 * span as u64 + 1)) as i64 - span
    };
    let mut curves: Vec<[(i64, i64); 4]> = vec![
        [(0, 0), (0, 0), (670, 0), (580, 0)],
        [(0, 0), (-47, -2), (1027, -1), (886, 0)],
        [(0, 0), (1000, 0), (0, 1000), (1000, 1000)],
        [(5, 7), (100, 7), (-100, 7), (5, 7)],
    ];
    for round in 0..300 {
        let span = [40i64, 1000, 100000, 1048576][round % 4];
        curves.push([
            (next(span), next(span)),
            (next(span), next(span)),
            (next(span), next(span)),
            (next(span), next(span)),
        ]);
    }
    for c in curves {
        let (a, error) = Arc::from_cubic(
            &pt(c[0].0, c[0].1),
            &pt(c[1].0, c[1].1),
            &pt(c[2].0, c[2].1),
            &pt(c[3].0, c[3].1),
        );
        assert!(error >= 0);
        let p = [
            (c[0].0 as f64, c[0].1 as f64),
            (c[1].0 as f64, c[1].1 as f64),
            (c[2].0 as f64, c[2].1 as f64),
            (c[3].0 as f64, c[3].1 as f64),
        ];
        let worst = worst_distance(p, &[a]);
        assert!(worst <= error as f64 * (1.0 + 1e-9) + 1e-6, "{:?}: {} > {}", c, worst, error);
    }
    // the conics that turn back near their end
    let (a, error) = Arc::from_conic(&pt(0, 0), &pt(410, 0), &pt(380, 0));
    assert_eq!((a, error), (arc(0, 0, 380, 0, 0), 380));
    let (a, error) = Arc::from_cubic(&pt(0, 0), &pt(0, 0), &pt(670, 0), &pt(580, 0));
    assert_eq!((a, error), (arc(0, 0, 580, 0, 0), 580));
    assert_eq!(approximate_conic(&pt(0, 0), &pt(410, 0), &pt(380, 0), 8).len(), 4);
    assert_eq!(approximate_cubic(&pt(0, 0), &pt(0, 0), &pt(670, 0), &pt(580, 0), 8).len(), 7);
}

#[test]
fn a_segment_run_the_other_way_gets_the_opposite_curvature() {
    // the quotient is exactly one half
    let (a, e) = Arc::from_conic(&pt(0, 0), &pt(8193, 8192), &pt(16384, 16384));
    let (b, f) = Arc::from_conic(&pt(16384, 16384), &pt(8193, 8192), &pt(0, 0));
    assert_eq!(a, arc(0, 0, 16384, 16384, 1));
    assert_eq!(b, arc(16384, 16384, 0, 0, -1));
    assert_eq!(e, f);
    let mut state: u64 = 0xFEDCBA9876543210;
    let mut next = |span: i64| -> i64 {
        state ^= state << 13;
        state ^= state >> 7;
        state ^= state << 17;
        (state % (2 * span as u64 + 1)) as i64 - span
    };
    for round in 0..200 {
        let span = [20i64, 3000, 1048576][round % 3];
        let p: Vec<Point> = (0..4).map(|_| pt(next(span), next(span))).collect();
        let (a, e) = Arc::from_cubic(&p[0], &p[1], &p[2], &p[3]);
        let (b, f) = Arc::from_cubic(&p[3], &p[2], &p[1], &p[0]);
        assert_eq!((b.p0, b.p1, b.d), (a.p1, a.p0, -a.d));
        // and is as far off the segment
        assert_eq!(e, f);
        let forth = approximate_cubic(&p[0], &p[1], &p[2], &p[3], -1);
        let back = approximate_cubic(&p[3], &p[2], &p[1], &p[0], -1);
        for i in 0..forth.len() {
            let (x, y) = (forth[i], back[forth.len() - 1 - i]);
            assert_eq!((y.p0, y.p1, y.d), (x.p1, x.p0, -x.d));
        }
    }
}

#[test]
fn a_looser_tolerance_needs_no_more_arcs() {
    let p = (pt(0, 0), pt(1000, 0), pt(0, 1000), pt(1000, 1000));
    let mut before = usize::MAX;
    for tolerance in [0i64, 1, 2, 4, 8, 16, 32, 64, 128, 1000] {
        let n = approximate_cubic(&p.0, &p.1, &p.2, &p.3, tolerance).len();
        assert!(n <= before);
        before = n;
    }
    assert_eq!(before, 1);
}

#[test]
fn the_error_of_a_quarter_circle_is_a_small_part_of_its_radius() {
    // the cubic that is drawn for a quarter of a circle of the radius 1000000
    let k = 552285;
    let (p0, p1, p2, p3) = (pt(1000000, 0), pt(1000000, k), pt(k, 1000000), pt(0, 1000000));
    let (a, error) = Arc::from_cubic(&p0, &p1, &p2, &p3);
    assert_eq!(a, arc(1000000, 0, 0, 1000000, 6786));
    assert_eq!(error, 302);
    let (b, back) = Arc::from_cubic(&p3, &p2, &p1, &p0);
    assert_eq!(b, arc(0, 1000000, 1000000, 0, -6786));
    assert_eq!(back, 302);
    assert_eq!(approximate_cubic(&p0, &p1, &p2, &p3, 302), vec![a]);
    assert_eq!(approximate_cubic(&p0, &p1, &p2, &p3, 301).len(), 2);
}

#[test]
fn the_error_is_the_same_for_a_segment_run_the_other_way() {
    let (a, forth) = Arc::from_conic(&pt(0, 0), &pt(-10, 1), &pt(100, 0));
    let (b, back) = Arc::from_conic(&pt(100, 0), &pt(-10, 1), &pt(0, 0));
    assert_eq!(a, arc(0, 0, 100, 0, -164));
    assert_eq!(b, arc(100, 0, 0, 0, 164));
    assert_eq!((forth, back), (101, 101));
    let c = Bezier::cubic(&pt(0, 0), &pt(0, 300), &pt(400, 700), &pt(900, 600));
    let r = c.reversed();
    assert_eq!(r, Bezier::cubic(&pt(900, 600), &pt(400, 700), &pt(0, 300), &pt(0, 0)));
    assert_eq!(c.hull_bound(), r.hull_bound());
    assert_eq!(c.fit(), (arc(0, 0, 900, 600, -6932), 15));
    assert_eq!(r.fit(), (arc(900, 600, 0, 0, 6932), 15));
}

#[test]
fn drift_of_the_halvings() {
    // the square root of two times the square of the level, halved, rounded up
    let expected = [0i64, 1, 2, 3, 3, 4, 5, 5, 6, 7, 8];
    for level in 0..=10u32 {
        assert_eq!(drift(level), expected[level as usize], "level {}", level);
    }
    assert_eq!(drift(1000), 708);
    assert_eq!(drift(u32::MAX), 3037000500);
}

#[test]
fn convergence_is_told() {
    let b = Bezier::conic(&pt(1000, 0), &pt(1000, 1000), &pt(0, 1000));
    assert!(converges(&b, 20, 0));
    assert!(!converges(&b, 19, 0));
    assert!(converges(&b, 19, 1));
    assert!(converges(&b, 8, MAX_DEPTH));
    assert!(converges(&b, 8, 1));
    assert!(!converges(&b, 7, 1));
    assert!(converges(&b, 7, 2));
    assert!(converges(&b, 4, 2));
    assert!(!converges(&b, 4, 1));
    assert!(!converges(&b, 1, MAX_DEPTH));
    assert!(!converges(&b, 0, MAX_DEPTH));
    assert!(!converges(&b, -1, MAX_DEPTH));
    // a straight segment is taken as it is, whatever the tolerance
    let line = Bezier::line(&pt(0, 0), &pt(300, 400));
    assert!(converges(&line, 0, 0));
    assert!(!converges(&line, -1, MAX_DEPTH));
}

#[test]
fn halves_on_the_finer_lattice_and_their_powers() {
    let b = Bezier::cubic(&pt(0, 0), &pt(0, 300), &pt(400, 700), &pt(900, 600));
    let (left, right) = b.fine_halves();
    assert_eq!(
        left,
        Bezier { p0: pt(0, 0), q1: pt(0, 3600), q2: pt(2400, 7800), p3: pt(2100, 3600) }
    );
    assert_eq!(
        right,
        Bezier {
            p0: pt(2100, 3600),
            q1: pt(10200, 13800),
            q2: pt(15600, 15600),
            p3: pt(7200, 4800)
        }
    );
    // the halves as they are held are these, an eighth as large and rounded
    let (l, r) = b.split();
    assert_eq!(l.p3, pt(263, 450));
    assert_eq!(r.p0, pt(263, 450));
    let a = b.fit_arc();
    assert_eq!(a, arc(0, 0, 900, 600, -6932));
    let fine = arc(0, 0, 7200, 4800, -6932);
    assert_eq!(fine_radius2(&fine), 7500333094082629632000000);
    assert_eq!(fine_radius2(&a), 117192704595041088000000);
    assert_eq!(from_center(&fine, 0, 3600, 3), (8079904742400, -3124805184000));
    assert_eq!(from_center(&fine, 0, 0, 1), (2693301580800, -496447065600));
    assert_eq!(left.power_range(&fine), (346102146878951915520000, 0));
    assert_eq!(right.power_range(&fine), (69809767209920102400000, 38354583929739018240000));
    assert_eq!(b.halved_range(&fine), (346102146878951915520000, 38354583929739018240000));
    // and once more, on the lattice sixty-four times finer
    let finer = arc(0, 0, 57600, 38400, -6932);
    assert_eq!(left.halved_range(&finer), (18172000306904967413760000, 0));
    assert_eq!(
        right.halved_range(&finer),
        (4467825101434886553600000, 1914172701672178974720000)
    );
    assert_eq!(b.circle_bound(&a), 15);
    assert_eq!(b.power_range(&a), (8457513513957457920000, 2754260695976509440000));
    assert_eq!(b.hull_from_start(), 1141);
    assert_eq!(b.reversed().hull_from_start(), 1082);
    assert_eq!(b.hull_bound(), 1082);
    assert_eq!(shares(5, -7, 100, -2000, 31, 0, -1), 7);
    assert_eq!(shares(-5, 7, -100, 2000, -31, 0, 1), 100);
    assert_eq!(shares(-5, -7, -100, -2000, -31, 0, -1), 0);
}
