//! A segment and its arc, run the other way.
//!
//! The arc fitted to a segment run the other way is the arc of the segment,
//! run the other way, and it is as far off the segment.

use vstd::prelude::*;
use crate::extents::{lower, upper};
use crate::fitter::Bezier;
use crate::geometry::{Arc, Point, CURVATURE_ONE, curvature_in_range};

verus! {

/// About the arc run the other way: its ends, and the parts of its
/// tangents.
pub proof fn lemma_arc_reversed(arc: Arc)
    requires
        curvature_in_range(arc.d as int),
    ensures
        arc.spec_reversed().p0 == arc.p1,
        arc.spec_reversed().p1 == arc.p0,
        arc.spec_reversed().d == -arc.d,
        arc.spec_reversed().d * arc.spec_reversed().d == arc.d * arc.d,
        arc.spec_reversed().d * CURVATURE_ONE == -(arc.d * CURVATURE_ONE),
        arc.spec_reversed().spec_len2() == arc.spec_len2(),
        arc.spec_reversed().spec_radius2() == arc.spec_radius2(),
{
    let r = arc.spec_reversed();
    let n = arc.d as int;
    let m = r.d as int;
    assert(m * m == n * n && m * CURVATURE_ONE == -(n * CURVATURE_ONE)) by (nonlinear_arith)
        requires
            m == -n,
    ;
    let cx = arc.p1.x - arc.p0.x;
    let cy = arc.p1.y - arc.p0.y;
    assert((-cx) * (-cx) == cx * cx && (-cy) * (-cy) == cy * cy) by (nonlinear_arith);
    assert(r.p1.x - r.p0.x == -cx && r.p1.y - r.p0.y == -cy);
}

/// The vector from the centre of the circle to a point, taken with the arc
/// run the other way, is the same vector turned about: the scale of these
/// vectors has the sign of the curvature.
pub proof fn lemma_center_reversed(arc: Arc, x: int, y: int, s: int)
    requires
        curvature_in_range(arc.d as int),
    ensures
        arc.spec_reversed().spec_scaled_from_center_x(x, s) == -arc.spec_scaled_from_center_x(
            x,
            s,
        ),
        arc.spec_reversed().spec_scaled_from_center_y(y, s) == -arc.spec_scaled_from_center_y(
            y,
            s,
        ),
{
    lemma_arc_reversed(arc);
    let r = arc.spec_reversed();
    let w = 2 * (arc.d * CURVATURE_ONE);
    let u = CURVATURE_ONE * CURVATURE_ONE - arc.d * arc.d;
    let cx = arc.p1.x - arc.p0.x;
    let cy = arc.p1.y - arc.p0.y;
    let qx = 2 * x - s * (arc.p0.x + arc.p1.x);
    let qy = 2 * y - s * (arc.p0.y + arc.p1.y);
    assert(2 * (r.d * CURVATURE_ONE) == -w);
    assert(CURVATURE_ONE * CURVATURE_ONE - r.d * r.d == u);
    assert(s * (r.p0.x + r.p1.x) == s * (arc.p0.x + arc.p1.x) && s * (r.p0.y + r.p1.y) == s * (
    arc.p0.y + arc.p1.y)) by (nonlinear_arith)
        requires
            r.p0 == arc.p1,
            r.p1 == arc.p0,
    ;
    assert(s * (r.p1.y - r.p0.y) == -(s * cy) && s * (r.p1.x - r.p0.x) == -(s * cx))
        by (nonlinear_arith)
        requires
            r.p1.y - r.p0.y == -cy,
            r.p1.x - r.p0.x == -cx,
    ;
    assert((-w) * qx + (-(s * cy)) * u == -(w * qx + (s * cy) * u)) by (nonlinear_arith);
    assert((-w) * qy - (-(s * cx)) * u == -(w * qy - (s * cx) * u)) by (nonlinear_arith);
}

/// The wedge of the arc run the other way is the wedge of the arc: the
/// line at its start is the line at the end of the arc, seen from the other
/// side.
pub proof fn lemma_wedge_reversed(arc: Arc, x: int, y: int, s: int)
    requires
        curvature_in_range(arc.d as int),
    ensures
        arc.spec_reversed().spec_scaled_wedge_start(x, y, s) == -arc.spec_scaled_wedge_end(
            x,
            y,
            s,
        ),
        arc.spec_reversed().spec_scaled_wedge_end(x, y, s) == -arc.spec_scaled_wedge_start(
            x,
            y,
            s,
        ),
        arc.spec_reversed().spec_scaled_in_wedge(x, y, s) == arc.spec_scaled_in_wedge(x, y, s),
        arc.spec_reversed().spec_scaled_cross(x, y, s) == -arc.spec_scaled_cross(x, y, s),
{
    lemma_arc_reversed(arc);
    let r = arc.spec_reversed();
    let u = CURVATURE_ONE * CURVATURE_ONE - arc.d * arc.d;
    let v = 2 * (arc.d * CURVATURE_ONE);
    let cx = arc.p1.x - arc.p0.x;
    let cy = arc.p1.y - arc.p0.y;
    let ax = x - s * arc.p0.x;
    let ay = y - s * arc.p0.y;
    let bx = x - s * arc.p1.x;
    let by = y - s * arc.p1.y;
    assert(r.p1.x - r.p0.x == -cx && r.p1.y - r.p0.y == -cy);
    assert(2 * (r.d * CURVATURE_ONE) == -v);
    assert(CURVATURE_ONE * CURVATURE_ONE - r.d * r.d == u);
    assert((-cx) * u + (-cy) * (-v) == -(cx * u - cy * v) && (-cy) * u - (-cx) * (-v) == -(cy * u
        + cx * v) && (-cx) * u - (-cy) * (-v) == -(cx * u + cy * v) && (-cy) * u + (-cx) * (-v)
        == -(cy * u - cx * v)) by (nonlinear_arith);
    assert(bx * (-(cx * u - cy * v)) + by * (-(cy * u + cx * v)) == -(bx * (cx * u - cy * v) + by
        * (cy * u + cx * v))) by (nonlinear_arith);
    assert(ax * (-(cx * u + cy * v)) + ay * (-(cy * u - cx * v)) == -(ax * (cx * u + cy * v) + ay
        * (cy * u - cx * v))) by (nonlinear_arith);
    // the cross product with the chord, from either end
    assert(s * arc.p1.x == s * arc.p0.x + s * cx && s * arc.p1.y == s * arc.p0.y + s * cy)
        by (nonlinear_arith)
        requires
            cx == arc.p1.x - arc.p0.x,
            cy == arc.p1.y - arc.p0.y,
    ;
    assert((-cx) * (ay - s * cy) - (-cy) * (ax - s * cx) == -(cx * ay - cy * ax))
        by (nonlinear_arith);
}

/// The sums of the powers of the control points, taken with the segment
/// and the arc run the other way, are those of the segment and the arc in
/// the opposite order.
#[verifier::rlimit(50)]
pub proof fn lemma_power_sums_reversed(b: Bezier, arc: Arc)
    requires
        curvature_in_range(arc.d as int),
    ensures
        b.spec_reversed().spec_power_sum(arc.spec_reversed(), 0) == b.spec_power_sum(arc, 6),
        b.spec_reversed().spec_power_sum(arc.spec_reversed(), 1) == b.spec_power_sum(arc, 5),
        b.spec_reversed().spec_power_sum(arc.spec_reversed(), 2) == b.spec_power_sum(arc, 4),
        b.spec_reversed().spec_power_sum(arc.spec_reversed(), 3) == b.spec_power_sum(arc, 3),
        b.spec_reversed().spec_power_sum(arc.spec_reversed(), 4) == b.spec_power_sum(arc, 2),
        b.spec_reversed().spec_power_sum(arc.spec_reversed(), 5) == b.spec_power_sum(arc, 1),
        b.spec_reversed().spec_power_sum(arc.spec_reversed(), 6) == b.spec_power_sum(arc, 0),
        b.spec_reversed().spec_power_high(arc.spec_reversed()) == b.spec_power_high(arc),
        b.spec_reversed().spec_power_low(arc.spec_reversed()) == b.spec_power_low(arc),
{
    lemma_arc_reversed(arc);
    let c = b.spec_reversed();
    let r = arc.spec_reversed();
    lemma_center_reversed(arc, b.p0.x as int, b.p0.y as int, 1);
    lemma_center_reversed(arc, b.q1.x as int, b.q1.y as int, 3);
    lemma_center_reversed(arc, b.q2.x as int, b.q2.y as int, 3);
    lemma_center_reversed(arc, b.p3.x as int, b.p3.y as int, 1);
    let x0 = b.spec_center_x(arc, 0);
    let x1 = b.spec_center_x(arc, 1);
    let x2 = b.spec_center_x(arc, 2);
    let x3 = b.spec_center_x(arc, 3);
    let y0 = b.spec_center_y(arc, 0);
    let y1 = b.spec_center_y(arc, 1);
    let y2 = b.spec_center_y(arc, 2);
    let y3 = b.spec_center_y(arc, 3);
    assert(c.spec_center_x(r, 0) == -x3 && c.spec_center_x(r, 1) == -x2 && c.spec_center_x(r, 2)
        == -x1 && c.spec_center_x(r, 3) == -x0);
    assert(c.spec_center_y(r, 0) == -y3 && c.spec_center_y(r, 1) == -y2 && c.spec_center_y(r, 2)
        == -y1 && c.spec_center_y(r, 3) == -y0);
    assert((-x3) * (-x3) == x3 * x3 && (-x3) * (-x2) == x2 * x3 && (-x3) * (-x1) == x1 * x3 && (
    -x3) * (-x0) == x0 * x3 && (-x2) * (-x2) == x2 * x2 && (-x2) * (-x1) == x1 * x2 && (-x2) * (
    -x0) == x0 * x2 && (-x1) * (-x1) == x1 * x1 && (-x1) * (-x0) == x0 * x1 && (-x0) * (-x0) == x0
        * x0) by (nonlinear_arith);
    assert((-y3) * (-y3) == y3 * y3 && (-y3) * (-y2) == y2 * y3 && (-y3) * (-y1) == y1 * y3 && (
    -y3) * (-y0) == y0 * y3 && (-y2) * (-y2) == y2 * y2 && (-y2) * (-y1) == y1 * y2 && (-y2) * (
    -y0) == y0 * y2 && (-y1) * (-y1) == y1 * y1 && (-y1) * (-y0) == y0 * y1 && (-y0) * (-y0) == y0
        * y0) by (nonlinear_arith);
    let rr = arc.spec_radius2();
    assert((1 * 1) * rr == rr && (1 * 3) * rr == 3 * rr && (3 * 3) * rr == 9 * rr && (3 * 1) * rr
        == 3 * rr) by (nonlinear_arith);
    assert(c.spec_power(r, 0, 0) == b.spec_power(arc, 3, 3));
    assert(c.spec_power(r, 0, 1) == b.spec_power(arc, 2, 3));
    assert(c.spec_power(r, 0, 2) == b.spec_power(arc, 1, 3));
    assert(c.spec_power(r, 0, 3) == b.spec_power(arc, 0, 3));
    assert(c.spec_power(r, 1, 1) == b.spec_power(arc, 2, 2));
    assert(c.spec_power(r, 1, 2) == b.spec_power(arc, 1, 2));
    assert(c.spec_power(r, 1, 3) == b.spec_power(arc, 0, 2));
    assert(c.spec_power(r, 2, 2) == b.spec_power(arc, 1, 1));
    assert(c.spec_power(r, 2, 3) == b.spec_power(arc, 0, 1));
    assert(c.spec_power(r, 3, 3) == b.spec_power(arc, 0, 0));
}

/// The halves of the segment run the other way are the halves of the
/// segment, run the other way and in the opposite order; and so with the arc
/// on the finer lattice.
pub proof fn lemma_fine_reversed(b: Bezier, arc: Arc)
    requires
        b.spec_in_lattice(8),
        arc.spec_in_lattice(8),
    ensures
        b.spec_reversed().spec_fine_left() == b.spec_fine_right().spec_reversed(),
        b.spec_reversed().spec_fine_right() == b.spec_fine_left().spec_reversed(),
        arc.spec_reversed().spec_fine() == arc.spec_fine().spec_reversed(),
        curvature_in_range(arc.spec_fine().d as int),
        b.spec_reversed().spec_in_lattice(8),
        arc.spec_reversed().spec_in_lattice(8),
        b.wf() ==> b.spec_fine_left().spec_in_lattice(8) && b.spec_fine_right().spec_in_lattice(8),
        arc.wf() ==> arc.spec_fine().spec_in_lattice(8),
{
}

/// The bounds by the halves of a segment are the same for the segment and
/// the arc run the other way.
pub proof fn lemma_halved_reversed(b: Bezier, arc: Arc)
    requires
        b.spec_in_lattice(8),
        arc.spec_in_lattice(8),
    ensures
        b.spec_reversed().spec_halved_high(arc.spec_reversed()) == b.spec_halved_high(arc),
        b.spec_reversed().spec_halved_low(arc.spec_reversed()) == b.spec_halved_low(arc),
{
    lemma_fine_reversed(b, arc);
    lemma_power_sums_reversed(b.spec_fine_left(), arc.spec_fine());
    lemma_power_sums_reversed(b.spec_fine_right(), arc.spec_fine());
}

/// Run the other way, the arc is as far off the segment: the deviation of
/// the arc run the other way from the segment run the other way is the
/// deviation of the arc from the segment.
#[verifier::rlimit(50)]
pub proof fn lemma_deviation_reversed(b: Bezier, arc: Arc)
    requires
        b.wf(),
        arc.wf(),
    ensures
        b.spec_reversed().spec_deviation(arc.spec_reversed()) == b.spec_deviation(arc),
{
    reveal(Bezier::spec_deviation);
    let c = b.spec_reversed();
    let r = arc.spec_reversed();
    lemma_arc_reversed(arc);
    assert(c.spec_reversed() == b);
    assert(c.spec_hull_bound() == b.spec_hull_bound());
    lemma_wedge_reversed(arc, b.q1.x as int, b.q1.y as int, 3);
    lemma_wedge_reversed(arc, b.q2.x as int, b.q2.y as int, 3);
    assert(c.spec_controls_in_wedge(r) == b.spec_controls_in_wedge(arc));
    // the line bound
    let c1 = arc.spec_scaled_cross(b.q1.x as int, b.q1.y as int, 3);
    let c2 = arc.spec_scaled_cross(b.q2.x as int, b.q2.y as int, 3);
    assert((-c1) * (-c1) == c1 * c1 && (-c2) * (-c2) == c2 * c2) by (nonlinear_arith);
    assert(upper((-c2) * (-c2), (-c1) * (-c1)) == upper(c1 * c1, c2 * c2));
    assert(c.spec_line_bound(r) == b.spec_line_bound(arc));
    // the circle bound
    lemma_fine_reversed(b, arc);
    lemma_halved_reversed(b.spec_fine_left(), arc.spec_fine());
    lemma_halved_reversed(b.spec_fine_right(), arc.spec_fine());
    assert(c.spec_power_above(r) == b.spec_power_above(arc));
    assert(c.spec_power_below(r) == b.spec_power_below(arc));
    assert(r.d * CURVATURE_ONE == -(arc.d * CURVATURE_ONE));
    assert(c.spec_circle_bound(r) == b.spec_circle_bound(arc));
}

/// The fit of a segment run the other way is the fit of the segment, run
/// the other way, and it is as far off.
pub proof fn lemma_fit_reversed_is_as_far_off(b: Bezier)
    requires
        b.wf(),
    ensures
        b.spec_reversed().spec_fit_arc() == b.spec_fit_arc().spec_reversed(),
        b.spec_reversed().spec_deviation(b.spec_reversed().spec_fit_arc()) == b.spec_deviation(
            b.spec_fit_arc(),
        ),
{
    reveal(Bezier::spec_fit_d);
    crate::bound::lemma_fit_reversed(b);
    crate::fitter::lemma_fit_arc_wf(b);
    crate::fitter::lemma_fit_arc_wf(b.spec_reversed());
    lemma_deviation_reversed(b, b.spec_fit_arc());
}

/// A quadratic or a cubic segment with its control points in the opposite
/// order is the segment run the other way.
pub proof fn lemma_curve_reversed(p0: Point, p1: Point, p2: Point, p3: Point)
    requires
        p0.wf(),
        p1.wf(),
        p2.wf(),
        p3.wf(),
    ensures
        Bezier::spec_conic(p2, p1, p0) == Bezier::spec_conic(p0, p1, p2).spec_reversed(),
        Bezier::spec_cubic(p3, p2, p1, p0) == Bezier::spec_cubic(p0, p1, p2, p3).spec_reversed(),
{
}

} // verus!
