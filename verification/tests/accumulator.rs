use glyphy::accumulator::ArcAccumulator;
use glyphy::fitter::DEFAULT_TOLERANCE;
use glyphy::geometry::{ArcEndpoint, Point, MOVE_TO};

fn pt(x: i64, y: i64) -> Point {
    Point::new(x, y)
}

fn ep(x: i64, y: i64, d: i64) -> ArcEndpoint {
    ArcEndpoint { p: pt(x, y), d }
}

#[test]
fn a_new_accumulator_is_empty() {
    let acc = ArcAccumulator::new();
    assert!(acc.endpoints().is_empty());
    assert_eq!(acc.tolerance(), DEFAULT_TOLERANCE);
    assert_eq!(acc.current_point(), pt(0, 0));
    assert!(acc.into_endpoints().is_empty());
}

#[test]
fn move_to_starts_a_contour() {
    let mut acc = ArcAccumulator::new();
    acc.move_to(&pt(5, 5));
    assert_eq!(acc.endpoints().to_vec(), vec![ep(5, 5, MOVE_TO)]);
    assert_eq!(acc.current_point(), pt(5, 5));
    assert!(acc.endpoints()[0].starts_contour());
    acc.move_to(&pt(9, 9));
    assert_eq!(acc.endpoints().to_vec(), vec![ep(5, 5, MOVE_TO), ep(9, 9, MOVE_TO)]);
}

#[test]
fn lines_and_arcs_are_appended_in_order() {
    let mut acc = ArcAccumulator::new();
    acc.move_to(&pt(5, 5));
    acc.line_to(&pt(15, 5));
    acc.arc_to(&pt(15, 15), 8192);
    acc.line_to(&pt(5, 5));
    acc.close_path();
    acc.move_to(&pt(100, 100));
    acc.close_path();
    acc.line_to(&pt(100, 100));
    assert_eq!(
        acc.into_endpoints(),
        vec![
            ep(5, 5, MOVE_TO),
            ep(15, 5, 0),
            ep(15, 15, 8192),
            ep(5, 5, 0),
            ep(100, 100, MOVE_TO),
            ep(100, 100, 0),
        ]
    );
}

#[test]
fn drawing_before_any_move_starts_at_the_origin() {
    let mut acc = ArcAccumulator::new();
    acc.line_to(&pt(10, 0));
    acc.line_to(&pt(10, 10));
    acc.close_path();
    acc.close_path();
    assert_eq!(
        acc.endpoints().to_vec(),
        vec![ep(0, 0, MOVE_TO), ep(10, 0, 0), ep(10, 10, 0), ep(0, 0, 0)]
    );
    let mut acc = ArcAccumulator::new();
    acc.arc_to(&pt(4, 4), -100);
    assert_eq!(acc.endpoints().to_vec(), vec![ep(0, 0, MOVE_TO), ep(4, 4, -100)]);
    let mut acc = ArcAccumulator::new();
    acc.conic_to(&pt(1000, 1000), &pt(2000, 0));
    assert_eq!(acc.endpoints()[0], ep(0, 0, MOVE_TO));
    assert_eq!(acc.current_point(), pt(2000, 0));
    let mut acc = ArcAccumulator::new();
    acc.cubic_to(&pt(0, 0), &pt(0, 0), &pt(0, 0));
    assert_eq!(acc.endpoints().to_vec(), vec![ep(0, 0, MOVE_TO), ep(0, 0, 0)]);
}

#[test]
fn close_path_before_any_contour_does_nothing() {
    let mut acc = ArcAccumulator::new();
    acc.close_path();
    assert!(acc.endpoints().is_empty());
    acc.move_to(&pt(3, 3));
    acc.close_path();
    assert_eq!(acc.endpoints().to_vec(), vec![ep(3, 3, MOVE_TO)]);
}

#[test]
fn close_path_returns_to_the_start_of_the_last_contour() {
    let mut acc = ArcAccumulator::new();
    acc.move_to(&pt(0, 0));
    acc.line_to(&pt(10, 0));
    acc.close_path();
    acc.move_to(&pt(50, 50));
    acc.line_to(&pt(60, 50));
    acc.line_to(&pt(60, 60));
    acc.close_path();
    assert_eq!(acc.current_point(), pt(50, 50));
    acc.close_path();
    assert_eq!(
        acc.into_endpoints(),
        vec![
            ep(0, 0, MOVE_TO),
            ep(10, 0, 0),
            ep(0, 0, 0),
            ep(50, 50, MOVE_TO),
            ep(60, 50, 0),
            ep(60, 60, 0),
            ep(50, 50, 0),
        ]
    );
}

#[test]
fn curves_are_fitted_with_the_tolerance_of_the_accumulator() {
    let mut acc = ArcAccumulator::new();
    acc.move_to(&pt(1000, 0));
    acc.conic_to(&pt(1000, 1000), &pt(0, 1000));
    acc.close_path();
    assert_eq!(
        acc.into_endpoints(),
        vec![
            ep(1000, 0, MOVE_TO),
            ep(750, 750, 3277),
            ep(0, 1000, 3277),
            ep(1000, 0, 0),
        ]
    );
    let mut acc = ArcAccumulator::new();
    acc.set_tolerance(16);
    assert_eq!(acc.tolerance(), 16);
    acc.move_to(&pt(1000, 0));
    acc.conic_to(&pt(1000, 1000), &pt(0, 1000));
    acc.cubic_to(&pt(-500, 1000), &pt(-1000, 500), &pt(-1000, 0));
    acc.close_path();
    assert_eq!(
        acc.into_endpoints(),
        vec![
            ep(1000, 0, MOVE_TO),
            ep(750, 750, 3277),
            ep(0, 1000, 3277),
            ep(-1000, 0, 6144),
            ep(1000, 0, 0),
        ]
    );
}

#[test]
fn reset_forgets_everything() {
    let mut acc = ArcAccumulator::new();
    acc.set_tolerance(50);
    acc.move_to(&pt(7, 7));
    acc.line_to(&pt(8, 8));
    acc.reset();
    assert!(acc.endpoints().is_empty());
    assert_eq!(acc.tolerance(), DEFAULT_TOLERANCE);
    assert_eq!(acc.current_point(), pt(0, 0));
    acc.line_to(&pt(1, 1));
    assert_eq!(acc.endpoints().to_vec(), vec![ep(0, 0, MOVE_TO), ep(1, 1, 0)]);
}

#[test]
fn every_contour_begins_with_a_move() {
    let mut acc = ArcAccumulator::new();
    acc.move_to(&pt(0, 0));
    acc.cubic_to(&pt(0, 300), &pt(400, 700), &pt(900, 600));
    acc.close_path();
    acc.move_to(&pt(-5, -5));
    acc.conic_to(&pt(-50, -5), &pt(-50, -50));
    acc.close_path();
    let list = acc.into_endpoints();
    assert!(list[0].starts_contour());
    let moves = list.iter().filter(|e| e.starts_contour()).count();
    assert_eq!(moves, 2);
    assert_eq!(list[list.len() - 1], ep(-5, -5, 0));
}

#[test]
fn endpoints_are_handed_on_one_by_one() {
    let mut acc = ArcAccumulator::new();
    assert_eq!(acc.next_to_send(0, true), None);
    acc.move_to(&pt(0, 0));
    acc.line_to(&pt(10, 0));
    acc.arc_to(&pt(10, 10), 8192);
    assert_eq!(acc.next_to_send(0, true), Some(ep(0, 0, MOVE_TO)));
    assert_eq!(acc.next_to_send(1, true), Some(ep(10, 0, 0)));
    assert_eq!(acc.next_to_send(2, true), Some(ep(10, 10, 8192)));
    assert_eq!(acc.next_to_send(3, true), None);
    assert_eq!(acc.next_to_send(7, true), None);
    assert_eq!(acc.next_to_send(0, false), None);
    assert_eq!(acc.next_to_send(2, false), None);
    // a stream that takes what is there after each step sees every endpoint once
    let mut seen = Vec::new();
    let mut sent = 0;
    let mut stream = ArcAccumulator::new();
    for step in 0..3 {
        if step == 0 {
            stream.move_to(&pt(1000, 0));
        } else if step == 1 {
            stream.conic_to(&pt(1000, 1000), &pt(0, 1000));
        } else {
            stream.close_path();
        }
        while let Some(e) = stream.next_to_send(sent, true) {
            seen.push(e);
            sent += 1;
        }
    }
    assert_eq!(seen, stream.into_endpoints());
    assert_eq!(sent, 4);
}

#[test]
fn an_arc_of_more_than_a_half_circle_is_taken_as_it_is() {
    let mut acc = ArcAccumulator::new();
    acc.move_to(&pt(-300, 0));
    acc.arc_to(&pt(300, 0), 32768);
    acc.arc_to(&pt(0, 0), -524288);
    acc.close_path();
    assert_eq!(
        acc.into_endpoints(),
        vec![ep(-300, 0, MOVE_TO), ep(300, 0, 32768), ep(0, 0, -524288), ep(-300, 0, 0)]
    );
}
