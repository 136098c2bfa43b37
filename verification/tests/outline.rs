use glyphy::extents::arc_list_extents;
use glyphy::geometry::{ArcEndpoint, Extents, Point, MOVE_TO};
use glyphy::outline::{
    convert_outline_to_arcs, draw_contour, draw_curve, Contour, Curve, Outline, UNITS_PER_PIXEL,
};
use glyphy::accumulator::ArcAccumulator;
use glyphy::sdf::sdf_from_arc_list;

fn pt(x: i64, y: i64) -> Point {
    Point::new(x, y)
}

fn ep(x: i64, y: i64, d: i64) -> ArcEndpoint {
    ArcEndpoint { p: pt(x, y), d }
}

/// A circle about the origin as four cubic segments.
fn circle(r: i64, counter_clockwise: bool) -> Contour {
    let k = (r as f64 * 0.5522847498).round() as i64;
    let mut quarters = vec![
        [(r, 0), (r, k), (k, r), (0, r)],
        [(0, r), (-k, r), (-r, k), (-r, 0)],
        [(-r, 0), (-r, -k), (-k, -r), (0, -r)],
        [(0, -r), (k, -r), (r, -k), (r, 0)],
    ];
    if !counter_clockwise {
        quarters.reverse();
        for q in quarters.iter_mut() {
            q.reverse();
        }
    }
    Contour {
        start: pt(quarters[0][0].0, quarters[0][0].1),
        curves: quarters
            .iter()
            .map(|q| Curve::Bezier3(pt(q[1].0, q[1].1), pt(q[2].0, q[2].1), pt(q[3].0, q[3].1)))
            .collect(),
    }
}

fn glyph() -> Outline {
    Outline {
        contours: vec![Contour {
            start: pt(0, 0),
            curves: vec![
                Curve::Line(pt(1000, 0)),
                Curve::Bezier2(pt(1000, 500), pt(500, 500)),
                Curve::Bezier3(pt(0, 500), pt(0, 250), pt(0, 0)),
            ],
        }],
    }
}

#[test]
fn a_pixel_has_sixty_four_units() {
    assert_eq!(UNITS_PER_PIXEL, 64);
}

#[test]
fn an_outline_without_contours_gives_no_endpoints() {
    assert!(convert_outline_to_arcs(&Outline { contours: Vec::new() }).is_empty());
}

#[test]
fn squares_become_straight_arcs() {
    let outline = Outline {
        contours: vec![
            Contour {
                start: pt(0, 0),
                curves: vec![
                    Curve::Line(pt(640, 0)),
                    Curve::Line(pt(640, 640)),
                    Curve::Line(pt(0, 640)),
                ],
            },
            Contour {
                start: pt(160, 160),
                curves: vec![
                    Curve::Line(pt(160, 480)),
                    Curve::Line(pt(480, 480)),
                    Curve::Line(pt(480, 160)),
                ],
            },
        ],
    };
    assert_eq!(
        convert_outline_to_arcs(&outline),
        vec![
            ep(0, 0, MOVE_TO),
            ep(640, 0, 0),
            ep(640, 640, 0),
            ep(0, 640, 0),
            ep(0, 0, 0),
            ep(160, 160, MOVE_TO),
            ep(160, 480, 0),
            ep(480, 480, 0),
            ep(480, 160, 0),
            ep(160, 160, 0),
        ]
    );
}

#[test]
fn a_contour_without_segments_is_its_start() {
    let outline = Outline { contours: vec![Contour { start: pt(3, 4), curves: Vec::new() }] };
    assert_eq!(convert_outline_to_arcs(&outline), vec![ep(3, 4, MOVE_TO)]);
}

#[test]
fn curves_of_a_glyph_are_fitted() {
    let list = convert_outline_to_arcs(&glyph());
    assert_eq!(
        list,
        vec![
            ep(0, 0, MOVE_TO),
            ep(1000, 0, 0),
            ep(875, 375, 3277),
            ep(500, 500, 3277),
            ep(211, 457, 1475),
            ep(63, 344, 2624),
            ep(0, 0, 2374),
        ]
    );
    assert_eq!(
        arc_list_extents(&list),
        Extents { min_x: -4, min_y: 0, max_x: 1002, max_y: 502 }
    );
    assert_eq!(sdf_from_arc_list(&list, &pt(500, 250), None), -250);
    assert_eq!(sdf_from_arc_list(&list, &pt(900, 480), None), 97);
    assert_eq!(sdf_from_arc_list(&list, &pt(2000, 2000), None), 1973);
    assert_eq!(sdf_from_arc_list(&list, &pt(990, 490), None), 162);
}

#[test]
fn drawing_piece_by_piece_gives_the_same_list() {
    let outline = glyph();
    let mut acc = ArcAccumulator::new();
    draw_contour(&mut acc, &outline.contours[0]);
    assert_eq!(acc.endpoints().to_vec(), convert_outline_to_arcs(&outline));
    let mut by_hand = ArcAccumulator::new();
    by_hand.move_to(&pt(0, 0));
    for c in &outline.contours[0].curves {
        draw_curve(&mut by_hand, c);
    }
    by_hand.close_path();
    assert_eq!(by_hand.into_endpoints(), acc.into_endpoints());
}

#[test]
fn circle_of_cubics_has_the_distance_of_its_radius() {
    for (r, n) in [(100i64, 5usize), (1000, 5), (10000, 5), (100000, 17)] {
        let list = convert_outline_to_arcs(&Outline { contours: vec![circle(r, true)] });
        assert_eq!(list.len(), n);
        let slack = 1 + r / 2500;
        for (x, y) in [(2 * r, 0), (-2 * r, 0), (0, 2 * r), (0, -2 * r)] {
            let d = sdf_from_arc_list(&list, &pt(x, y), None);
            assert!(r - slack <= d && d <= r + slack, "r {} d {}", r, d);
        }
        let d = sdf_from_arc_list(&list, &pt(0, 0), None);
        assert!(-r - slack <= d && d <= -r + slack, "r {} d {}", r, d);
    }
    let list = convert_outline_to_arcs(&Outline { contours: vec![circle(1000, true)] });
    assert_eq!(
        list,
        vec![
            ep(1000, 0, MOVE_TO),
            ep(0, 1000, 6783),
            ep(-1000, 0, 6783),
            ep(0, -1000, 6783),
            ep(1000, 0, 6783),
        ]
    );
    assert_eq!(sdf_from_arc_list(&list, &pt(0, 0), None), -999);
    assert_eq!(sdf_from_arc_list(&list, &pt(2000, 0), None), 1000);
}

#[test]
fn annulus_of_cubics_has_a_hole() {
    let list = convert_outline_to_arcs(&Outline {
        contours: vec![circle(1000, true), circle(400, false)],
    });
    assert_eq!(list.len(), 10);
    assert_eq!(list[5], ep(400, 0, MOVE_TO));
    assert_eq!(list[6], ep(0, -400, -6789));
    let at = |x: i64, y: i64| sdf_from_arc_list(&list, &pt(x, y), None);
    assert_eq!(at(0, 0), 400);
    assert_eq!(at(100, 50), 288);
    assert_eq!(at(390, 0), 10);
    assert_eq!(at(700, 0), -299);
    assert_eq!(at(0, -700), -299);
    assert_eq!(at(500, 500), -292);
    assert_eq!(at(410, 0), -9);
    assert_eq!(at(1500, 0), 500);
}
