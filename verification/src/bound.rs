//! That the deviation of an arc from a curve bounds the whole curve: every
//! point of the curve, at whatever parameter, lies within the deviation of
//! the arc.

use vstd::prelude::*;
use crate::curve::{lemma_bilinear, lemma_bounded_sum, lemma_linear, lemma_weights};
use crate::deviation::{lemma_ceil_quotient_bounded, lemma_within_monotonic};
use crate::extents::{lower, upper};
use crate::fitter::Bezier;
use crate::geometry::{Arc, CURVATURE_ONE};
use crate::numeric::{
    abs,
    ceil_div,
    ceil_sqrt,
    isqrt,
    lemma_ceil_sqrt_bounds,
    lemma_isqrt_exists,
};

verus! {

/// The squared radius of a curved arc between two different points is
/// positive, and its square root at least one.
pub proof fn lemma_radius_positive(arc: Arc)
    requires
        arc.wf(),
        arc.spec_len2() > 0,
    ensures
        arc.spec_radius2() >= 1,
        isqrt(arc.spec_radius2() as nat) >= 1,
{
    let g = CURVATURE_ONE * CURVATURE_ONE + arc.d * arc.d;
    assert(g >= 1 && g * g >= 1) by (nonlinear_arith)
        requires
            g == CURVATURE_ONE * CURVATURE_ONE + arc.d * arc.d,
            CURVATURE_ONE == 16384,
    ;
    assert(arc.spec_len2() * (g * g) >= 1) by (nonlinear_arith)
        requires
            arc.spec_len2() >= 1,
            g * g >= 1,
    ;
    lemma_isqrt_exists(arc.spec_radius2() as nat);
    let s = isqrt(arc.spec_radius2() as nat);
    if s == 0 {
        assert((s + 1) * (s + 1) == 1) by (nonlinear_arith)
            requires
                s == 0,
        ;
    }
}

/// A product with a vector from a point, as a straight-line function.
pub proof fn lemma_form(x: int, y: int, s: int, px: int, py: int, tx: int, ty: int)
    ensures
        (x - s * px) * tx + (y - s * py) * ty == tx * x + ty * y + (-(px * tx + py * ty)) * s,
{
    assert((x - s * px) * tx == tx * x - (px * tx) * s) by (nonlinear_arith);
    assert((y - s * py) * ty == ty * y - (py * ty) * s) by (nonlinear_arith);
    assert((-(px * tx + py * ty)) * s == -((px * tx) * s) - (py * ty) * s) by (nonlinear_arith);
}

/// The value of a product with a vector from a point at a point of the
/// curve: the weighted sum of its values at the control points.
#[verifier::rlimit(50)]
pub proof fn lemma_form_on_curve(b: Bezier, k: int, n: int, px: int, py: int, tx: int, ty: int)
    requires
        0 <= k <= n,
    ensures
        ({
            let j = n - k;
            let s = (n * n) * n;
            (b.spec_point_x(k, n) - s * px) * tx + (b.spec_point_y(k, n) - s * py) * ty == ((j * j)
                * j) * ((b.p0.x - 1 * px) * tx + (b.p0.y - 1 * py) * ty) + ((j * j) * k) * ((b.q1.x
                - 3 * px) * tx + (b.q1.y - 3 * py) * ty) + (j * (k * k)) * ((b.q2.x - 3 * px) * tx
                + (b.q2.y - 3 * py) * ty) + ((k * k) * k) * ((b.p3.x - 1 * px) * tx + (b.p3.y - 1
                * py) * ty)
        }),
{
    let j = n - k;
    let s = (n * n) * n;
    let m0 = (j * j) * j;
    let m1 = (j * j) * k;
    let m2 = j * (k * k);
    let m3 = (k * k) * k;
    let ga = -(px * tx + py * ty);
    lemma_weights(k, n);
    lemma_form(b.spec_point_x(k, n), b.spec_point_y(k, n), s, px, py, tx, ty);
    lemma_form(b.p0.x as int, b.p0.y as int, 1, px, py, tx, ty);
    lemma_form(b.q1.x as int, b.q1.y as int, 3, px, py, tx, ty);
    lemma_form(b.q2.x as int, b.q2.y as int, 3, px, py, tx, ty);
    lemma_form(b.p3.x as int, b.p3.y as int, 1, px, py, tx, ty);
    lemma_linear(
        tx,
        ty,
        ga,
        b.p0.x as int,
        b.p0.y as int,
        b.q1.x as int,
        b.q1.y as int,
        b.q2.x as int,
        b.q2.y as int,
        b.p3.x as int,
        b.p3.y as int,
        m0,
        m1,
        m2,
        m3,
    );
    assert(ga * 1 == ga && ga * 3 == 3 * ga);
}

/// No point of the curve lies farther from an end of the curve than the
/// hull bound says.
pub proof fn lemma_hull_within(b: Bezier, arc: Arc, k: int, n: int)
    requires
        arc.p0 == b.p0,
        arc.p1 == b.p3,
        0 <= k <= n,
        n > 0,
    ensures
        (n * n) * n > 0,
        b.spec_hull_bound() >= 0,
        arc.spec_scaled_end_dist2(b.spec_point_x(k, n), b.spec_point_y(k, n), (n * n) * n) <= (
        b.spec_hull_bound() * ((n * n) * n)) * (b.spec_hull_bound() * ((n * n) * n)),
{
    lemma_hull_from_start(b, k, n);
    lemma_hull_from_start(b.spec_reversed(), n - k, n);
    lemma_point_reversed(b, k, n);
}

/// The curve run the other way has the same points, at the parameters
/// counted from the other end.
pub proof fn lemma_point_reversed(b: Bezier, k: int, n: int)
    ensures
        b.spec_reversed().spec_point_x(n - k, n) == b.spec_point_x(k, n),
        b.spec_reversed().spec_point_y(n - k, n) == b.spec_point_y(k, n),
{
    let j = n - k;
    assert(n - j == k);
    assert((k * k) * j == j * (k * k) && k * (j * j) == (j * j) * k) by (nonlinear_arith);
}

/// No point of the curve lies farther from the start of the curve than the
/// control points do.
#[verifier::rlimit(50)]
pub proof fn lemma_hull_from_start(b: Bezier, k: int, n: int)
    requires
        0 <= k <= n,
        n > 0,
    ensures
        (n * n) * n > 0,
        b.spec_hull_from_start() >= 0,
        (b.spec_point_x(k, n) - ((n * n) * n) * b.p0.x) * (b.spec_point_x(k, n) - ((n * n) * n)
            * b.p0.x) + (b.spec_point_y(k, n) - ((n * n) * n) * b.p0.y) * (b.spec_point_y(k, n) - (
        (n * n) * n) * b.p0.y) <= (b.spec_hull_from_start() * ((n * n) * n)) * (
        b.spec_hull_from_start() * ((n * n) * n)),
{
    let j = n - k;
    let s = (n * n) * n;
    let m0 = (j * j) * j;
    let m1 = (j * j) * k;
    let m2 = j * (k * k);
    let m3 = (k * k) * k;
    let x = b.spec_point_x(k, n);
    let y = b.spec_point_y(k, n);
    let hx = b.spec_hull_x();
    let hy = b.spec_hull_y();
    let hb = b.spec_hull_from_start();
    lemma_weights(k, n);
    assert(s > 0) by (nonlinear_arith)
        requires
            s == (n * n) * n,
            n > 0,
    ;
    let gx = x - s * b.p0.x;
    let gy = y - s * b.p0.y;
    lemma_form_on_curve(b, k, n, b.p0.x as int, b.p0.y as int, 1, 0);
    lemma_form_on_curve(b, k, n, b.p0.x as int, b.p0.y as int, 0, 1);
    let g1x = b.q1.x - 3 * b.p0.x;
    let g2x = b.q2.x - 3 * b.p0.x;
    let g3x = b.p3.x - b.p0.x;
    let g1y = b.q1.y - 3 * b.p0.y;
    let g2y = b.q2.y - 3 * b.p0.y;
    let g3y = b.p3.y - b.p0.y;
    assert(gx == m1 * g1x + m2 * g2x + m3 * g3x) by {
        lemma_times_one_zero(gx, gy);
        lemma_times_one_zero(b.p0.x - 1 * b.p0.x, b.p0.y - 1 * b.p0.y);
        lemma_times_one_zero(g1x, g1y);
        lemma_times_one_zero(g2x, g2y);
        lemma_times_one_zero(b.p3.x - 1 * b.p0.x, b.p3.y - 1 * b.p0.y);
        assert(m0 * 0 == 0);
    }
    assert(gy == m1 * g1y + m2 * g2y + m3 * g3y) by {
        lemma_times_one_zero(gx, gy);
        lemma_times_one_zero(b.p0.x - 1 * b.p0.x, b.p0.y - 1 * b.p0.y);
        lemma_times_one_zero(g1x, g1y);
        lemma_times_one_zero(g2x, g2y);
        lemma_times_one_zero(b.p3.x - 1 * b.p0.x, b.p3.y - 1 * b.p0.y);
        assert(m0 * 0 == 0);
    }
    assert(hx >= 0 && hy >= 0);
    assert(-(3 * hx) <= g1x <= 3 * hx && -(3 * hx) <= g2x <= 3 * hx && -hx <= g3x <= hx);
    assert(-(3 * hy) <= g1y <= 3 * hy && -(3 * hy) <= g2y <= 3 * hy && -hy <= g3y <= hy);
    lemma_hull_axis(m0, m1, m2, m3, g1x, g2x, g3x, hx, s);
    lemma_hull_axis(m0, m1, m2, m3, g1y, g2y, g3y, hy, s);
    assert(hx * hx + hy * hy >= 0) by (nonlinear_arith);
    lemma_ceil_sqrt_bounds((hx * hx + hy * hy) as nat);
    assert(gx * gx + gy * gy <= (hb * s) * (hb * s)) by (nonlinear_arith)
        requires
            gx * gx <= (s * hx) * (s * hx),
            gy * gy <= (s * hy) * (s * hy),
            hx * hx + hy * hy <= hb * hb,
    ;
}

/// Products with one and with zero.
pub proof fn lemma_times_one_zero(a: int, b: int)
    ensures
        a * 1 + b * 0 == a,
        a * 0 + b * 1 == b,
{
}

/// Along one axis, a point of the curve lies no farther from the start than
/// the control points do.
pub proof fn lemma_hull_axis(
    m0: int,
    m1: int,
    m2: int,
    m3: int,
    g1: int,
    g2: int,
    g3: int,
    h: int,
    s: int,
)
    requires
        m0 >= 0 && m1 >= 0 && m2 >= 0 && m3 >= 0,
        s == m0 + 3 * m1 + 3 * m2 + m3,
        -(3 * h) <= g1 <= 3 * h,
        -(3 * h) <= g2 <= 3 * h,
        -h <= g3 <= h,
    ensures
        (m1 * g1 + m2 * g2 + m3 * g3) * (m1 * g1 + m2 * g2 + m3 * g3) <= (s * h) * (s * h),
{
    let g = m1 * g1 + m2 * g2 + m3 * g3;
    assert(-(m1 * (3 * h)) <= m1 * g1 <= m1 * (3 * h)) by (nonlinear_arith)
        requires
            m1 >= 0,
            -(3 * h) <= g1 <= 3 * h,
    ;
    assert(-(m2 * (3 * h)) <= m2 * g2 <= m2 * (3 * h)) by (nonlinear_arith)
        requires
            m2 >= 0,
            -(3 * h) <= g2 <= 3 * h,
    ;
    assert(-(m3 * h) <= m3 * g3 <= m3 * h) by (nonlinear_arith)
        requires
            m3 >= 0,
            -h <= g3 <= h,
    ;
    assert(s * h == m0 * h + m1 * (3 * h) + m2 * (3 * h) + m3 * h && m0 * h >= 0)
        by (nonlinear_arith)
        requires
            s == m0 + 3 * m1 + 3 * m2 + m3,
            m0 >= 0,
            h >= 0,
    ;
    assert(g * g <= (s * h) * (s * h)) by (nonlinear_arith)
        requires
            -(s * h) <= g <= s * h,
    ;
}

/// Where the inner control points lie in the wedge of the arc, every point
/// of the curve does.
#[verifier::rlimit(50)]
pub proof fn lemma_curve_in_wedge(b: Bezier, arc: Arc, k: int, n: int)
    requires
        arc.spec_minor(),
        arc.p0 == b.p0,
        arc.p1 == b.p3,
        b.spec_controls_in_wedge(arc),
        0 <= k <= n,
    ensures
        arc.spec_scaled_in_wedge(b.spec_point_x(k, n), b.spec_point_y(k, n), (n * n) * n),
{
    let j = n - k;
    let m0 = (j * j) * j;
    let m1 = (j * j) * k;
    let m2 = j * (k * k);
    let m3 = (k * k) * k;
    let cx = arc.p1.x - arc.p0.x;
    let cy = arc.p1.y - arc.p0.y;
    let u = CURVATURE_ONE * CURVATURE_ONE - arc.d * arc.d;
    let v = 2 * (arc.d * CURVATURE_ONE);
    let l2 = cx * cx + cy * cy;
    lemma_weights(k, n);
    assert(u >= 0 && l2 >= 0) by (nonlinear_arith)
        requires
            u == CURVATURE_ONE * CURVATURE_ONE - arc.d * arc.d,
            -16384 <= arc.d <= 16384,
            CURVATURE_ONE == 16384,
            l2 == cx * cx + cy * cy,
    ;
    // the chord points into the wedge at the start and out of it at the end
    assert(cx * (cx * u + cy * v) + cy * (cy * u - cx * v) == u * l2 && cx * (cx * u - cy * v)
        + cy * (cy * u + cx * v) == u * l2) by {
        crate::exact::lemma_expand(cx, 0, cx, cy, u, v);
        crate::exact::lemma_expand(cy, 0, cy, -cx, u, v);
        crate::exact::lemma_expand(cx, 0, cx, -cy, u, v);
        crate::exact::lemma_expand(cy, 0, cy, cx, u, v);
        assert((0 * cx) * u == 0 && (0 * cy) * v == 0 && (0 * cy) * u == 0 && (0 * (-cx)) * v == 0
            && (0 * (-cy)) * v == 0 && (0 * cx) * v == 0) by (nonlinear_arith);
        assert((cy * (-cx)) * v == -((cx * cy) * v) && (cx * (-cy)) * v == -((cx * cy) * v) && (cy
            * cx) * v == (cx * cy) * v && (-cx) * v == -(cx * v) && (-cy) * v == -(cy * v))
            by (nonlinear_arith);
        assert(u * l2 == (cx * cx) * u + (cy * cy) * u) by (nonlinear_arith)
            requires
                l2 == cx * cx + cy * cy,
        ;
    }
    assert(u * l2 >= 0) by (nonlinear_arith)
        requires
            u >= 0,
            l2 >= 0,
    ;
    let t0x = cx * u + cy * v;
    let t0y = cy * u - cx * v;
    let t1x = cx * u - cy * v;
    let t1y = cy * u + cx * v;
    lemma_form_on_curve(b, k, n, arc.p0.x as int, arc.p0.y as int, t0x, t0y);
    lemma_form_on_curve(b, k, n, arc.p1.x as int, arc.p1.y as int, t1x, t1y);
    let a0 = (b.p0.x - 1 * arc.p0.x) * t0x + (b.p0.y - 1 * arc.p0.y) * t0y;
    let a1 = (b.q1.x - 3 * arc.p0.x) * t0x + (b.q1.y - 3 * arc.p0.y) * t0y;
    let a2 = (b.q2.x - 3 * arc.p0.x) * t0x + (b.q2.y - 3 * arc.p0.y) * t0y;
    let a3 = (b.p3.x - 1 * arc.p0.x) * t0x + (b.p3.y - 1 * arc.p0.y) * t0y;
    let e0 = (b.p0.x - 1 * arc.p1.x) * t1x + (b.p0.y - 1 * arc.p1.y) * t1y;
    let e1 = (b.q1.x - 3 * arc.p1.x) * t1x + (b.q1.y - 3 * arc.p1.y) * t1y;
    let e2 = (b.q2.x - 3 * arc.p1.x) * t1x + (b.q2.y - 3 * arc.p1.y) * t1y;
    let e3 = (b.p3.x - 1 * arc.p1.x) * t1x + (b.p3.y - 1 * arc.p1.y) * t1y;
    assert(a0 == 0 && e3 == 0) by (nonlinear_arith)
        requires
            a0 == (b.p0.x - 1 * arc.p0.x) * t0x + (b.p0.y - 1 * arc.p0.y) * t0y,
            e3 == (b.p3.x - 1 * arc.p1.x) * t1x + (b.p3.y - 1 * arc.p1.y) * t1y,
            arc.p0 == b.p0,
            arc.p1 == b.p3,
    ;
    assert(a3 == u * l2);
    assert(e0 == -(u * l2)) by (nonlinear_arith)
        requires
            e0 == (-cx) * t1x + (-cy) * t1y,
            cx * t1x + cy * t1y == u * l2,
    ;
    assert(a1 >= 0 && a2 >= 0 && e1 <= 0 && e2 <= 0);
    assert(m0 * a0 + m1 * a1 + m2 * a2 + m3 * a3 >= 0) by (nonlinear_arith)
        requires
            m0 >= 0 && m1 >= 0 && m2 >= 0 && m3 >= 0,
            a0 == 0,
            a1 >= 0,
            a2 >= 0,
            a3 >= 0,
    ;
    assert(m0 * e0 + m1 * e1 + m2 * e2 + m3 * e3 <= 0) by (nonlinear_arith)
        requires
            m0 >= 0 && m1 >= 0 && m2 >= 0 && m3 >= 0,
            e0 <= 0,
            e1 <= 0,
            e2 <= 0,
            e3 == 0,
    ;
}

/// Where the inner control points lie in the wedge of a straight arc, no
/// point of the curve lies farther from the line of the chord than the line
/// bound says.
#[verifier::rlimit(50)]
pub proof fn lemma_line_within(b: Bezier, arc: Arc, k: int, n: int)
    requires
        arc.p0 == b.p0,
        arc.p1 == b.p3,
        arc.d == 0,
        arc.spec_len2() > 0,
        0 <= k <= n,
        n > 0,
    ensures
        b.spec_line_bound(arc) >= 0,
        arc.spec_near_circle(
            b.spec_point_x(k, n),
            b.spec_point_y(k, n),
            (n * n) * n,
            b.spec_line_bound(arc),
        ),
{
    let j = n - k;
    let s = (n * n) * n;
    let m0 = (j * j) * j;
    let m1 = (j * j) * k;
    let m2 = j * (k * k);
    let m3 = (k * k) * k;
    let cx = arc.p1.x - arc.p0.x;
    let cy = arc.p1.y - arc.p0.y;
    let l2 = arc.spec_len2();
    let x = b.spec_point_x(k, n);
    let y = b.spec_point_y(k, n);
    let c1 = arc.spec_scaled_cross(b.q1.x as int, b.q1.y as int, 3);
    let c2 = arc.spec_scaled_cross(b.q2.x as int, b.q2.y as int, 3);
    let c = arc.spec_scaled_cross(x, y, s);
    let e = b.spec_line_bound(arc);
    lemma_weights(k, n);
    lemma_form_on_curve(b, k, n, arc.p0.x as int, arc.p0.y as int, -cy, cx);
    assert(c == (x - s * arc.p0.x) * (-cy) + (y - s * arc.p0.y) * cx) by (nonlinear_arith)
        requires
            c == cx * (y - s * arc.p0.y) - cy * (x - s * arc.p0.x),
    ;
    assert(c1 == (b.q1.x - 3 * arc.p0.x) * (-cy) + (b.q1.y - 3 * arc.p0.y) * cx && c2 == (b.q2.x
        - 3 * arc.p0.x) * (-cy) + (b.q2.y - 3 * arc.p0.y) * cx) by (nonlinear_arith)
        requires
            c1 == cx * (b.q1.y - 3 * arc.p0.y) - cy * (b.q1.x - 3 * arc.p0.x),
            c2 == cx * (b.q2.y - 3 * arc.p0.y) - cy * (b.q2.x - 3 * arc.p0.x),
    ;
    assert((b.p0.x - 1 * arc.p0.x) * (-cy) + (b.p0.y - 1 * arc.p0.y) * cx == 0 && (b.p3.x - 1
        * arc.p0.x) * (-cy) + (b.p3.y - 1 * arc.p0.y) * cx == 0) by (nonlinear_arith)
        requires
            arc.p0 == b.p0,
            arc.p1 == b.p3,
            cx == arc.p1.x - arc.p0.x,
            cy == arc.p1.y - arc.p0.y,
    ;
    assert(m0 * 0 == 0 && m3 * 0 == 0);
    assert(c == m1 * c1 + m2 * c2);
    // the larger of the two squares bounds the square of the sum
    let big = upper(c1 * c1, c2 * c2);
    assert(c1 * c1 >= 0 && c2 * c2 >= 0 && 2 * (c1 * c2) <= c1 * c1 + c2 * c2) by (nonlinear_arith);
    assert(c * c <= ((m1 + m2) * (m1 + m2)) * big) by {
        crate::exact::lemma_square_of_difference(m1, c1, -m2, c2);
        assert((-m2) * c2 == -(m2 * c2) && (-m2) * (-m2) == m2 * m2 && (2 * (m1 * (-m2))) * (c1
            * c2) == -((m1 * m2) * (2 * (c1 * c2)))) by (nonlinear_arith);
        assert(c * c == (m1 * m1) * (c1 * c1) + (m1 * m2) * (2 * (c1 * c2)) + (m2 * m2) * (c2
            * c2));
        assert((m1 * m1) * (c1 * c1) <= (m1 * m1) * big && (m2 * m2) * (c2 * c2) <= (m2 * m2)
            * big && (m1 * m2) * (2 * (c1 * c2)) <= (m1 * m2) * (2 * big)) by (nonlinear_arith)
            requires
                c1 * c1 <= big,
                c2 * c2 <= big,
                2 * (c1 * c2) <= 2 * big,
                m1 >= 0,
                m2 >= 0,
        ;
        assert(((m1 + m2) * (m1 + m2)) * big == (m1 * m1) * big + (m1 * m2) * (2 * big) + (m2
            * m2) * big) by (nonlinear_arith);
    }
    assert(9 * ((m1 + m2) * (m1 + m2)) <= s * s) by (nonlinear_arith)
        requires
            s == m0 + 3 * m1 + 3 * m2 + m3,
            m0 >= 0 && m1 >= 0 && m2 >= 0 && m3 >= 0,
    ;
    // the bound, rounded up three times
    lemma_ceil_quotient_bounded(big, l2);
    let q = ceil_div(big, l2);
    lemma_ceil_sqrt_bounds(q as nat);
    let r = ceil_sqrt(q as nat) as int;
    lemma_ceil_quotient_bounded(r, 3);
    assert(big <= (9 * (e * e)) * l2) by (nonlinear_arith)
        requires
            big <= q * l2,
            q <= r * r,
            0 <= r <= e * 3,
            l2 > 0,
    ;
    assert(c * c <= ((e * s) * (e * s)) * l2) by (nonlinear_arith)
        requires
            c * c <= ((m1 + m2) * (m1 + m2)) * big,
            9 * ((m1 + m2) * (m1 + m2)) <= s * s,
            big <= (9 * (e * e)) * l2,
            big >= 0,
            l2 > 0,
            (m1 + m2) * (m1 + m2) >= 0,
    ;
}

/// The vector from the centre of the circle, as a straight-line function.
pub proof fn lemma_center_form(v: int, x: int, s: int, sum: int, c: int, u: int)
    ensures
        v * (2 * x - s * sum) + (s * c) * u == (2 * v) * x + (c * u - v * sum) * s,
{
    assert(v * (2 * x - s * sum) == (2 * v) * x - (v * sum) * s) by (nonlinear_arith);
    assert((s * c) * u == (c * u) * s) by (nonlinear_arith);
    assert((c * u - v * sum) * s == (c * u) * s - (v * sum) * s) by (nonlinear_arith);
}

/// The vector from the centre of the circle of `arc` to a point of the
/// curve: the weighted sum of the vectors to the control points.
#[verifier::rlimit(50)]
pub proof fn lemma_center_on_curve(b: Bezier, arc: Arc, k: int, n: int)
    requires
        0 <= k <= n,
    ensures
        ({
            let j = n - k;
            let s = (n * n) * n;
            &&& arc.spec_scaled_from_center_x(b.spec_point_x(k, n), s) == ((j * j) * j)
                * b.spec_center_x(arc, 0) + ((j * j) * k) * b.spec_center_x(arc, 1) + (j * (k
                * k)) * b.spec_center_x(arc, 2) + ((k * k) * k) * b.spec_center_x(arc, 3)
            &&& arc.spec_scaled_from_center_y(b.spec_point_y(k, n), s) == ((j * j) * j)
                * b.spec_center_y(arc, 0) + ((j * j) * k) * b.spec_center_y(arc, 1) + (j * (k
                * k)) * b.spec_center_y(arc, 2) + ((k * k) * k) * b.spec_center_y(arc, 3)
        }),
{
    let j = n - k;
    let s = (n * n) * n;
    let m0 = (j * j) * j;
    let m1 = (j * j) * k;
    let m2 = j * (k * k);
    let m3 = (k * k) * k;
    let v = 2 * (arc.d * CURVATURE_ONE);
    let u = CURVATURE_ONE * CURVATURE_ONE - arc.d * arc.d;
    let sx = arc.p0.x + arc.p1.x;
    let sy = arc.p0.y + arc.p1.y;
    let cx = arc.p1.x - arc.p0.x;
    let cy = arc.p1.y - arc.p0.y;
    lemma_weights(k, n);
    // along x
    let gx = cy * u - v * sx;
    lemma_center_form(v, b.spec_point_x(k, n), s, sx, cy, u);
    lemma_center_form(v, b.p0.x as int, 1, sx, cy, u);
    lemma_center_form(v, b.q1.x as int, 3, sx, cy, u);
    lemma_center_form(v, b.q2.x as int, 3, sx, cy, u);
    lemma_center_form(v, b.p3.x as int, 1, sx, cy, u);
    lemma_linear(
        2 * v,
        0,
        gx,
        b.p0.x as int,
        0,
        b.q1.x as int,
        0,
        b.q2.x as int,
        0,
        b.p3.x as int,
        0,
        m0,
        m1,
        m2,
        m3,
    );
    assert(0 * (m0 * 0 + m1 * 0 + m2 * 0 + m3 * 0) == 0 && 0 * 0 == 0 && gx * 1 == gx && gx * 3
        == 3 * gx);
    // along y, where the chord enters with the other sign
    let gy = (-cx) * u - v * sy;
    lemma_center_form(v, b.spec_point_y(k, n), s, sy, -cx, u);
    lemma_center_form(v, b.p0.y as int, 1, sy, -cx, u);
    lemma_center_form(v, b.q1.y as int, 3, sy, -cx, u);
    lemma_center_form(v, b.q2.y as int, 3, sy, -cx, u);
    lemma_center_form(v, b.p3.y as int, 1, sy, -cx, u);
    assert((s * (-cx)) * u == -((s * cx) * u) && (1 * (-cx)) * u == -((1 * cx) * u) && (3 * (-cx))
        * u == -((3 * cx) * u)) by (nonlinear_arith);
    lemma_linear(
        2 * v,
        0,
        gy,
        b.p0.y as int,
        0,
        b.q1.y as int,
        0,
        b.q2.y as int,
        0,
        b.p3.y as int,
        0,
        m0,
        m1,
        m2,
        m3,
    );
    assert(gy * 1 == gy && gy * 3 == 3 * gy);
}

/// How far a point of the curve lies off the circle of `arc`, as the
/// difference of the squares of its distance to the centre and of the
/// radius: no more than the power bound, on the scale of the point.
#[verifier::rlimit(80)]
pub proof fn lemma_power_on_curve(b: Bezier, arc: Arc, k: int, n: int)
    requires
        0 <= k <= n,
    ensures
        ({
            let s = (n * n) * n;
            let a = arc.spec_scaled_from_center2(b.spec_point_x(k, n), b.spec_point_y(k, n), s);
            &&& b.spec_power_high(arc) >= 0
            &&& b.spec_power_low(arc) >= 0
            &&& -(b.spec_power_low(arc) * (s * s)) <= a - (s * s) * arc.spec_radius2()
            &&& a - (s * s) * arc.spec_radius2() <= b.spec_power_high(arc) * (s * s)
        }),
{
    let j = n - k;
    let s = (n * n) * n;
    let m0 = (j * j) * j;
    let m1 = (j * j) * k;
    let m2 = j * (k * k);
    let m3 = (k * k) * k;
    let r = arc.spec_radius2();
    let x0 = b.spec_center_x(arc, 0);
    let x1 = b.spec_center_x(arc, 1);
    let x2 = b.spec_center_x(arc, 2);
    let x3 = b.spec_center_x(arc, 3);
    let y0 = b.spec_center_y(arc, 0);
    let y1 = b.spec_center_y(arc, 1);
    let y2 = b.spec_center_y(arc, 2);
    let y3 = b.spec_center_y(arc, 3);
    let vx = arc.spec_scaled_from_center_x(b.spec_point_x(k, n), s);
    let vy = arc.spec_scaled_from_center_y(b.spec_point_y(k, n), s);
    lemma_weights(k, n);
    lemma_center_on_curve(b, arc, k, n);
    lemma_bilinear(m0, m1, m2, m3, x0, x1, x2, x3, x0, x1, x2, x3);
    lemma_bilinear(m0, m1, m2, m3, y0, y1, y2, y3, y0, y1, y2, y3);
    lemma_bilinear(m0, m1, m2, m3, 1, 3, 3, 1, 1, 3, 3, 1);
    let p0 = m0 * m0;
    let p1 = m0 * m1;
    let p2 = m0 * m2;
    let p3 = m0 * m3;
    let p4 = m1 * m3;
    let p5 = m2 * m3;
    let p6 = m3 * m3;
    assert(m0 * 1 == m0 && m1 * 3 == 3 * m1 && m2 * 3 == 3 * m2 && m3 * 1 == m3);
    assert(s * s == p0 + 6 * p1 + 15 * p2 + 20 * p3 + 15 * p4 + 6 * p5 + p6) by {
        assert(p0 * (1 * 1) == p0 && p1 * (1 * 3 + 3 * 1) == 6 * p1 && p2 * (1 * 3 + 3 * 3 + 3 * 1)
            == 15 * p2 && p3 * (1 * 1 + 3 * 3 + 3 * 3 + 1 * 1) == 20 * p3 && p4 * (3 * 1 + 3 * 3
            + 1 * 3) == 15 * p4 && p5 * (3 * 1 + 1 * 3) == 6 * p5 && p6 * (1 * 1) == p6)
            by (nonlinear_arith);
        assert(s == m0 * 1 + m1 * 3 + m2 * 3 + m3 * 1);
    }
    let h0 = b.spec_power_sum(arc, 0);
    let h1 = b.spec_power_sum(arc, 1);
    let h2 = b.spec_power_sum(arc, 2);
    let h3 = b.spec_power_sum(arc, 3);
    let h4 = b.spec_power_sum(arc, 4);
    let h5 = b.spec_power_sum(arc, 5);
    let h6 = b.spec_power_sum(arc, 6);
    // the sums of the powers, term by term
    assert(x1 * x0 == x0 * x1 && x2 * x0 == x0 * x2 && x3 * x0 == x0 * x3 && x2 * x1 == x1 * x2
        && x3 * x1 == x1 * x3 && x3 * x2 == x2 * x3 && y1 * y0 == y0 * y1 && y2 * y0 == y0 * y2
        && y3 * y0 == y0 * y3 && y2 * y1 == y1 * y2 && y3 * y1 == y1 * y3 && y3 * y2 == y2 * y3)
        by (nonlinear_arith);
    assert((1 * 1) * r == r && (1 * 3) * r == 3 * r && (3 * 3) * r == 9 * r && (3 * 1) * r == 3
        * r);
    let ux0 = x0 * x0;
    let ux1 = x0 * x1 + x1 * x0;
    let ux2 = x0 * x2 + x1 * x1 + x2 * x0;
    let ux3 = x0 * x3 + x1 * x2 + x2 * x1 + x3 * x0;
    let ux4 = x1 * x3 + x2 * x2 + x3 * x1;
    let ux5 = x2 * x3 + x3 * x2;
    let ux6 = x3 * x3;
    let uy0 = y0 * y0;
    let uy1 = y0 * y1 + y1 * y0;
    let uy2 = y0 * y2 + y1 * y1 + y2 * y0;
    let uy3 = y0 * y3 + y1 * y2 + y2 * y1 + y3 * y0;
    let uy4 = y1 * y3 + y2 * y2 + y3 * y1;
    let uy5 = y2 * y3 + y3 * y2;
    let uy6 = y3 * y3;
    assert(h0 == ux0 + uy0 - r && h1 == ux1 + uy1 - 6 * r && h2 == ux2 + uy2 - 15 * r && h3 == ux3
        + uy3 - 20 * r && h4 == ux4 + uy4 - 15 * r && h5 == ux5 + uy5 - 6 * r && h6 == ux6 + uy6
        - r);
    lemma_power_term(p0, ux0, uy0, 1, r);
    lemma_power_term(p1, ux1, uy1, 6, r);
    lemma_power_term(p2, ux2, uy2, 15, r);
    lemma_power_term(p3, ux3, uy3, 20, r);
    lemma_power_term(p4, ux4, uy4, 15, r);
    lemma_power_term(p5, ux5, uy5, 6, r);
    lemma_power_term(p6, ux6, uy6, 1, r);
    assert((s * s) * r == p0 * r + 6 * (p1 * r) + 15 * (p2 * r) + 20 * (p3 * r) + 15 * (p4 * r)
        + 6 * (p5 * r) + p6 * r) by (nonlinear_arith)
        requires
            s * s == p0 + 6 * p1 + 15 * p2 + 20 * p3 + 15 * p4 + 6 * p5 + p6,
    ;
    let a = arc.spec_scaled_from_center2(b.spec_point_x(k, n), b.spec_point_y(k, n), s);
    assert(a == vx * vx + vy * vy);
    assert(a - (s * s) * r == p0 * h0 + p1 * h1 + p2 * h2 + p3 * h3 + p4 * h4 + p5 * h5 + p6 * h6);
    let hi = b.spec_power_high(arc);
    let lo = b.spec_power_low(arc);
    lemma_largest_share(h0, h1, h2, h3, h4, h5, h6);
    lemma_largest_share(-h0, -h1, -h2, -h3, -h4, -h5, -h6);
    lemma_bounded_sum(p0, p1, p2, p3, p4, p5, p6, h0, h1, h2, h3, h4, h5, h6, lo, hi);
    assert(hi * (p0 + 6 * p1 + 15 * p2 + 20 * p3 + 15 * p4 + 6 * p5 + p6) == hi * (s * s));
    assert(lo * (p0 + 6 * p1 + 15 * p2 + 20 * p3 + 15 * p4 + 6 * p5 + p6) == lo * (s * s));
}

/// The bounds of the powers are not negative.
pub proof fn lemma_power_bounds_positive(b: Bezier, arc: Arc)
    ensures
        b.spec_power_high(arc) >= 0,
        b.spec_power_low(arc) >= 0,
{
    lemma_largest_share(
        b.spec_power_sum(arc, 0),
        b.spec_power_sum(arc, 1),
        b.spec_power_sum(arc, 2),
        b.spec_power_sum(arc, 3),
        b.spec_power_sum(arc, 4),
        b.spec_power_sum(arc, 5),
        b.spec_power_sum(arc, 6),
    );
    lemma_largest_share(
        -b.spec_power_sum(arc, 0),
        -b.spec_power_sum(arc, 1),
        -b.spec_power_sum(arc, 2),
        -b.spec_power_sum(arc, 3),
        -b.spec_power_sum(arc, 4),
        -b.spec_power_sum(arc, 5),
        -b.spec_power_sum(arc, 6),
    );
}

/// The largest share bounds each of the seven sums by its number of terms,
/// and is not negative.
pub proof fn lemma_largest_share(h0: int, h1: int, h2: int, h3: int, h4: int, h5: int, h6: int)
    ensures
        crate::fitter::largest_share(h0, h1, h2, h3, h4, h5, h6) >= 0,
        h0 <= crate::fitter::largest_share(h0, h1, h2, h3, h4, h5, h6),
        h1 <= 6 * crate::fitter::largest_share(h0, h1, h2, h3, h4, h5, h6),
        h2 <= 15 * crate::fitter::largest_share(h0, h1, h2, h3, h4, h5, h6),
        h3 <= 20 * crate::fitter::largest_share(h0, h1, h2, h3, h4, h5, h6),
        h4 <= 15 * crate::fitter::largest_share(h0, h1, h2, h3, h4, h5, h6),
        h5 <= 6 * crate::fitter::largest_share(h0, h1, h2, h3, h4, h5, h6),
        h6 <= crate::fitter::largest_share(h0, h1, h2, h3, h4, h5, h6),
{
    lemma_ceil_quotient_bounded(upper(h0, 0), 1);
    lemma_ceil_quotient_bounded(upper(h1, 0), 6);
    lemma_ceil_quotient_bounded(upper(h2, 0), 15);
    lemma_ceil_quotient_bounded(upper(h3, 0), 20);
    lemma_ceil_quotient_bounded(upper(h4, 0), 15);
    lemma_ceil_quotient_bounded(upper(h5, 0), 6);
    lemma_ceil_quotient_bounded(upper(h6, 0), 1);
}

/// One term of the power of a point of the curve.
pub proof fn lemma_power_term(p: int, ux: int, uy: int, c: int, r: int)
    ensures
        p * (ux + uy - c * r) == p * ux + p * uy - c * (p * r),
{
    assert(p * (ux + uy - c * r) == p * ux + p * uy - c * (p * r)) by (nonlinear_arith);
}

/// The cubes of twice a weight, by the weights themselves.
pub proof fn lemma_doubled_weights(j: int, k: int)
    ensures
        ((2 * j) * (2 * j)) * (2 * j) == 8 * ((j * j) * j),
        ((2 * j) * (2 * j)) * (2 * k) == 8 * ((j * j) * k),
        (2 * j) * ((2 * k) * (2 * k)) == 8 * (j * (k * k)),
        ((2 * k) * (2 * k)) * (2 * k) == 8 * ((k * k) * k),
{
    assert(((2 * j) * (2 * j)) * (2 * j) == 8 * ((j * j) * j)) by (nonlinear_arith);
    assert(((2 * j) * (2 * j)) * (2 * k) == 8 * ((j * j) * k)) by (nonlinear_arith);
    assert((2 * j) * ((2 * k) * (2 * k)) == 8 * (j * (k * k))) by (nonlinear_arith);
    assert(((2 * k) * (2 * k)) * (2 * k) == 8 * ((k * k) * k)) by (nonlinear_arith);
}

/// One coordinate of a point of a curve, eight times: the sum of the
/// control points `x0` to `x3` by the weights at the parameter
/// `(2 * k) / (2 * (j + k))`.
pub proof fn lemma_doubled_coordinate(j: int, k: int, x0: int, x1: int, x2: int, x3: int)
    ensures
        (((2 * j) * (2 * j)) * (2 * j)) * x0 + (((2 * j) * (2 * j)) * (2 * k)) * x1 + ((2 * j) * ((2
            * k) * (2 * k))) * x2 + (((2 * k) * (2 * k)) * (2 * k)) * x3 == 8 * (((j * j) * j) * x0
            + ((j * j) * k) * x1 + (j * (k * k)) * x2 + ((k * k) * k) * x3),
{
    lemma_doubled_weights(j, k);
    let m0 = (j * j) * j;
    let m1 = (j * j) * k;
    let m2 = j * (k * k);
    let m3 = (k * k) * k;
    assert((8 * m0) * x0 == 8 * (m0 * x0) && (8 * m1) * x1 == 8 * (m1 * x1) && (8 * m2) * x2 == 8
        * (m2 * x2) && (8 * m3) * x3 == 8 * (m3 * x3)) by (nonlinear_arith);
}

/// A point of the curve is a point of one of its halves: on the lattice
/// eight times finer, the point of the curve at `k / n` is the point of the
/// first half at `(2 * k) / n` where that is at most one, and the point of
/// the second half at `(2 * k - n) / n` where that is at least zero.
#[verifier::rlimit(50)]
pub proof fn lemma_fine_halves(b: Bezier, k: int, n: int)
    requires
        b.spec_in_lattice(8),
        0 <= k <= n,
    ensures
        2 * k <= n ==> b.spec_fine_left().spec_point_x(2 * k, n) == 8 * b.spec_point_x(k, n)
            && b.spec_fine_left().spec_point_y(2 * k, n) == 8 * b.spec_point_y(k, n),
        2 * k >= n ==> b.spec_fine_right().spec_point_x(2 * k - n, n) == 8 * b.spec_point_x(k, n)
            && b.spec_fine_right().spec_point_y(2 * k - n, n) == 8 * b.spec_point_y(k, n),
{
    let j = n - k;
    if 2 * k <= n {
        // the weights of the half: `jh` and `kh`, with `2 * jh + kh == 2 * j`
        let kh = 2 * k;
        let jh = n - 2 * k;
        assert(2 * jh + kh == 2 * j);
        lemma_half_exact(jh, kh, b.p0.x as int, b.q1.x as int, b.q2.x as int, b.p3.x as int);
        lemma_half_exact(jh, kh, b.p0.y as int, b.q1.y as int, b.q2.y as int, b.p3.y as int);
        lemma_doubled_coordinate(j, k, b.p0.x as int, b.q1.x as int, b.q2.x as int, b.p3.x as int);
        lemma_doubled_coordinate(j, k, b.p0.y as int, b.q1.y as int, b.q2.y as int, b.p3.y as int);
    }
    if 2 * k >= n {
        let kh = 2 * k - n;
        let jh = n - kh;
        assert(jh == 2 * j && jh + 2 * kh == 2 * k);
        lemma_half_exact(jh, kh, b.p0.x as int, b.q1.x as int, b.q2.x as int, b.p3.x as int);
        lemma_half_exact(jh, kh, b.p0.y as int, b.q1.y as int, b.q2.y as int, b.p3.y as int);
        lemma_doubled_coordinate(j, k, b.p0.x as int, b.q1.x as int, b.q2.x as int, b.p3.x as int);
        lemma_doubled_coordinate(j, k, b.p0.y as int, b.q1.y as int, b.q2.y as int, b.p3.y as int);
    }
}

/// The circle of an arc on the lattice eight times finer is the circle of
/// the arc, eight times as large.
pub proof fn lemma_fine_arc(arc: Arc, x: int, y: int, s: int)
    requires
        arc.spec_in_lattice(8),
    ensures
        arc.spec_fine().spec_scaled_from_center2(8 * x, 8 * y, s) == 64
            * arc.spec_scaled_from_center2(x, y, s),
        arc.spec_fine().spec_radius2() == 64 * arc.spec_radius2(),
{
    let fine = arc.spec_fine();
    let w = 2 * (arc.d * CURVATURE_ONE);
    let u = CURVATURE_ONE * CURVATURE_ONE - arc.d * arc.d;
    let g = CURVATURE_ONE * CURVATURE_ONE + arc.d * arc.d;
    let cx = arc.p1.x - arc.p0.x;
    let cy = arc.p1.y - arc.p0.y;
    let sx = arc.p0.x + arc.p1.x;
    let sy = arc.p0.y + arc.p1.y;
    let vx = arc.spec_scaled_from_center_x(x, s);
    let vy = arc.spec_scaled_from_center_y(y, s);
    assert(fine.p1.x - fine.p0.x == 8 * cx && fine.p1.y - fine.p0.y == 8 * cy && fine.p0.x
        + fine.p1.x == 8 * sx && fine.p0.y + fine.p1.y == 8 * sy);
    assert(s * (8 * sx) == 8 * (s * sx) && s * (8 * sy) == 8 * (s * sy) && s * (8 * cx) == 8 * (s
        * cx) && s * (8 * cy) == 8 * (s * cy)) by (nonlinear_arith);
    assert(w * (8 * (2 * x - s * sx)) == 8 * (w * (2 * x - s * sx)) && w * (8 * (2 * y - s * sy))
        == 8 * (w * (2 * y - s * sy)) && (8 * (s * cy)) * u == 8 * ((s * cy) * u) && (8 * (s * cx))
        * u == 8 * ((s * cx) * u)) by (nonlinear_arith);
    assert(fine.spec_scaled_from_center_x(8 * x, s) == 8 * vx);
    assert(fine.spec_scaled_from_center_y(8 * y, s) == 8 * vy);
    assert((8 * vx) * (8 * vx) == 64 * (vx * vx) && (8 * vy) * (8 * vy) == 64 * (vy * vy))
        by (nonlinear_arith);
    assert((8 * cx) * (8 * cx) + (8 * cy) * (8 * cy) == 64 * (cx * cx + cy * cy))
        by (nonlinear_arith);
    assert((64 * (cx * cx + cy * cy)) * (g * g) == 64 * ((cx * cx + cy * cy) * (g * g)))
        by (nonlinear_arith);
}

/// How far the points of a curve lie off the circle of an arc at most, by
/// the squares and by the two halves of the curve: at every parameter
/// `k / n`, sixty-four times the square of the distance to the centre is at
/// most `spec_halved_high` more than sixty-four times the square of the
/// radius, and at most `spec_halved_low` less.
#[verifier::rlimit(50)]
pub proof fn lemma_halved_range(b: Bezier, arc: Arc, k: int, n: int)
    requires
        b.spec_in_lattice(8),
        arc.spec_in_lattice(8),
        0 <= k <= n,
    ensures
        ({
            let s = (n * n) * n;
            let a = arc.spec_scaled_from_center2(b.spec_point_x(k, n), b.spec_point_y(k, n), s);
            &&& b.spec_halved_high(arc) >= 0
            &&& b.spec_halved_low(arc) >= 0
            &&& -(b.spec_halved_low(arc) * (s * s)) <= 64 * (a - (s * s) * arc.spec_radius2())
            &&& 64 * (a - (s * s) * arc.spec_radius2()) <= b.spec_halved_high(arc) * (s * s)
        }),
{
    let s = (n * n) * n;
    let ss = s * s;
    let x = b.spec_point_x(k, n);
    let y = b.spec_point_y(k, n);
    let a = arc.spec_scaled_from_center2(x, y, s);
    let rr = arc.spec_radius2();
    let fine = arc.spec_fine();
    let left = b.spec_fine_left();
    let right = b.spec_fine_right();
    let high = b.spec_halved_high(arc);
    let low = b.spec_halved_low(arc);
    lemma_fine_halves(b, k, n);
    lemma_fine_arc(arc, x, y, s);
    lemma_power_bounds_positive(left, fine);
    lemma_power_bounds_positive(right, fine);
    if 2 * k <= n {
        lemma_power_on_curve(left, fine, 2 * k, n);
    } else {
        lemma_power_on_curve(right, fine, 2 * k - n, n);
    }
    assert(ss >= 0) by (nonlinear_arith)
        requires
            ss == s * s,
    ;
    let t = a - ss * rr;
    assert(64 * a - ss * (64 * rr) == 64 * t) by (nonlinear_arith)
        requires
            t == a - ss * rr,
    ;
    // either half bounds the point that it holds
    if 2 * k <= n {
        let hl = left.spec_power_high(fine);
        let ll = left.spec_power_low(fine);
        assert(hl * ss <= high * ss && ll * ss <= low * ss) by (nonlinear_arith)
            requires
                hl <= high,
                ll <= low,
                ss >= 0,
        ;
    } else {
        let hr = right.spec_power_high(fine);
        let lr = right.spec_power_low(fine);
        assert(hr * ss <= high * ss && lr * ss <= low * ss) by (nonlinear_arith)
            requires
                hr <= high,
                lr <= low,
                ss >= 0,
        ;
    }
}

/// How far the points of the curve lie off the circle of a curved arc at
/// most, by the squares: at every parameter `k / n` the square of the
/// distance to the centre is at most `spec_power_above` more than the
/// square of the radius, and at most `spec_power_below` less.
#[verifier::rlimit(50)]
pub proof fn lemma_power_range(b: Bezier, arc: Arc, k: int, n: int)
    requires
        b.wf(),
        arc.wf(),
        0 <= k <= n,
    ensures
        ({
            let s = (n * n) * n;
            let a = arc.spec_scaled_from_center2(b.spec_point_x(k, n), b.spec_point_y(k, n), s);
            &&& b.spec_power_above(arc) >= 0
            &&& b.spec_power_below(arc) >= 0
            &&& -(b.spec_power_below(arc) * (s * s)) <= a - (s * s) * arc.spec_radius2()
            &&& a - (s * s) * arc.spec_radius2() <= b.spec_power_above(arc) * (s * s)
        }),
{
    let s = (n * n) * n;
    let ss = s * s;
    let x = b.spec_point_x(k, n);
    let y = b.spec_point_y(k, n);
    let a = arc.spec_scaled_from_center2(x, y, s);
    let rr = arc.spec_radius2();
    let fine = arc.spec_fine();
    let left = b.spec_fine_left();
    let right = b.spec_fine_right();
    let high = upper(left.spec_halved_high(fine), right.spec_halved_high(fine));
    let low = upper(left.spec_halved_low(fine), right.spec_halved_low(fine));
    lemma_fine_halves(b, k, n);
    lemma_fine_arc(arc, x, y, s);
    lemma_halved_range(left, fine, 0, n);
    lemma_halved_range(right, fine, 0, n);
    if 2 * k <= n {
        lemma_halved_range(left, fine, 2 * k, n);
    } else {
        lemma_halved_range(right, fine, 2 * k - n, n);
    }
    lemma_ceil_quotient_bounded(high, 4096);
    lemma_ceil_quotient_bounded(low, 4096);
    let above = b.spec_power_above(arc);
    let below = b.spec_power_below(arc);
    assert(ss >= 0) by (nonlinear_arith)
        requires
            ss == s * s,
    ;
    let t = a - ss * rr;
    assert(64 * a - ss * (64 * rr) == 64 * t) by (nonlinear_arith)
        requires
            t == a - ss * rr,
    ;
    // either half bounds the point that it holds
    assert(-(low * ss) <= 64 * (64 * t) <= high * ss) by {
        if 2 * k <= n {
            let hl = left.spec_halved_high(fine);
            let ll = left.spec_halved_low(fine);
            assert(hl * ss <= high * ss && ll * ss <= low * ss) by (nonlinear_arith)
                requires
                    hl <= high,
                    ll <= low,
                    ss >= 0,
            ;
        } else {
            let hr = right.spec_halved_high(fine);
            let lr = right.spec_halved_low(fine);
            assert(hr * ss <= high * ss && lr * ss <= low * ss) by (nonlinear_arith)
                requires
                    hr <= high,
                    lr <= low,
                    ss >= 0,
            ;
        }
    }
    assert(-(below * ss) <= t <= above * ss) by (nonlinear_arith)
        requires
            -(low * ss) <= 64 * (64 * t) <= high * ss,
            high <= above * 4096,
            low <= below * 4096,
            ss >= 0,
    ;
}

/// No point of the curve lies farther from the circle of a curved arc than
/// the circle bound says.
#[verifier::rlimit(80)]
pub proof fn lemma_circle_within(b: Bezier, arc: Arc, k: int, n: int)
    requires
        b.wf(),
        arc.wf(),
        arc.d != 0,
        arc.spec_len2() > 0,
        0 <= k <= n,
        n > 0,
    ensures
        b.spec_circle_bound(arc) >= 0,
        arc.spec_near_circle(
            b.spec_point_x(k, n),
            b.spec_point_y(k, n),
            (n * n) * n,
            b.spec_circle_bound(arc),
        ),
{
    let s = (n * n) * n;
    let x = b.spec_point_x(k, n);
    let y = b.spec_point_y(k, n);
    let a = arc.spec_scaled_from_center2(x, y, s);
    let rr = arc.spec_radius2();
    let high = b.spec_power_above(arc);
    let low = b.spec_power_below(arc);
    let sr = isqrt(rr as nat) as int;
    let e = b.spec_circle_bound(arc);
    lemma_power_range(b, arc, k, n);
    lemma_radius_positive(arc);
    lemma_isqrt_exists(rr as nat);
    assert(s > 0) by (nonlinear_arith)
        requires
            s == (n * n) * n,
            n > 0,
    ;
    // the roots of the squared radius with the bounds added and taken off
    let above = ceil_sqrt((rr + high) as nat) as int;
    lemma_ceil_sqrt_bounds((rr + high) as nat);
    assert(above >= sr) by {
        if above < sr {
            assert(above * above < sr * sr) by (nonlinear_arith)
                requires
                    0 <= above < sr,
            ;
        }
    }
    let out = above - sr;
    let below: int = if low > rr {
        0
    } else {
        isqrt((rr - low) as nat) as int
    };
    if low <= rr {
        lemma_isqrt_exists((rr - low) as nat);
        if below > sr {
            assert(below * below >= (sr + 1) * (sr + 1)) by (nonlinear_arith)
                requires
                    below >= sr + 1,
                    sr >= 0,
            ;
        }
    }
    assert(0 <= below <= sr);
    assert(below * below <= rr - low || below == 0);
    let inn = sr + 1 - below;
    let big = upper(out, inn);
    let unit = 4 * abs(arc.d * CURVATURE_ONE);
    assert(unit > 0) by (nonlinear_arith)
        requires
            unit == 4 * abs(arc.d * CURVATURE_ONE),
            arc.d != 0,
            CURVATURE_ONE == 16384,
    ;
    lemma_ceil_quotient_bounded(big, unit);
    let m = e * arc.spec_scaled_unit(s);
    assert(m >= big * s) by (nonlinear_arith)
        requires
            m == e * (unit * s),
            big <= e * unit,
            s > 0,
    ;
    // the scaled radius, rounded down, on the scale of the point
    let ss = s * s;
    assert(ss > 0) by (nonlinear_arith)
        requires
            ss == s * s,
            s > 0,
    ;
    assert(ss * rr >= 0) by (nonlinear_arith)
        requires
            ss > 0,
            rr >= 1,
    ;
    let rs = isqrt((ss * rr) as nat) as int;
    lemma_isqrt_exists((ss * rr) as nat);
    assert(arc.spec_scaled_radius2(s) == ss * rr);
    assert(sr * sr <= rr && rr < (sr + 1) * (sr + 1));
    assert(rs * rs <= ss * rr && ss * rr < (rs + 1) * (rs + 1));
    assert(s * sr <= rs) by {
        if rs < s * sr {
            assert((rs + 1) * (rs + 1) <= (s * sr) * (s * sr)) by (nonlinear_arith)
                requires
                    0 <= rs + 1 <= s * sr,
            ;
            assert((s * sr) * (s * sr) <= ss * rr) by (nonlinear_arith)
                requires
                    ss == s * s,
                    sr * sr <= rr,
            ;
        }
    }
    assert(rs + 1 <= s * (sr + 1)) by {
        if rs >= s * (sr + 1) {
            assert((s * (sr + 1)) * (s * (sr + 1)) <= rs * rs) by (nonlinear_arith)
                requires
                    0 <= s * (sr + 1) <= rs,
            ;
            assert(ss * rr < (s * (sr + 1)) * (s * (sr + 1))) by (nonlinear_arith)
                requires
                    ss == s * s,
                    rr < (sr + 1) * (sr + 1),
                    s > 0,
            ;
        }
    }
    // from outside
    assert(rs + m >= s * above) by (nonlinear_arith)
        requires
            s * sr <= rs,
            m >= big * s,
            big >= above - sr,
            s > 0,
    ;
    assert(a <= ss * (rr + high)) by (nonlinear_arith)
        requires
            a - ss * rr <= high * ss,
    ;
    assert(ss * (rr + high) <= (s * above) * (s * above)) by (nonlinear_arith)
        requires
            ss == s * s,
            rr + high <= above * above,
            ss > 0,
    ;
    assert((s * above) * (s * above) <= (rs + m) * (rs + m)) by (nonlinear_arith)
        requires
            0 <= s * above <= rs + m,
    ;
    // from inside
    if rs + 1 > m {
        let yy = rs + 1 - m;
        assert(yy <= s * below) by (nonlinear_arith)
            requires
                yy == rs + 1 - m,
                rs + 1 <= s * (sr + 1),
                m >= big * s,
                big >= sr + 1 - below,
                s > 0,
        ;
        assert(below >= 1) by (nonlinear_arith)
            requires
                1 <= yy <= s * below,
                s > 0,
                below >= 0,
        ;
        assert(yy * yy <= (s * below) * (s * below)) by (nonlinear_arith)
            requires
                1 <= yy <= s * below,
        ;
        assert((s * below) * (s * below) <= ss * (rr - low)) by (nonlinear_arith)
            requires
                ss == s * s,
                below * below <= rr - low,
                ss > 0,
        ;
        assert(ss * (rr - low) <= a) by (nonlinear_arith)
            requires
                -(low * ss) <= a - ss * rr,
        ;
    }
}

/// The deviation of an arc from a curve bounds the whole curve: at every
/// parameter `k / n` the point of the curve lies within the deviation of the
/// arc.
#[verifier::rlimit(50)]
pub proof fn lemma_deviation_bounds_curve(b: Bezier, arc: Arc, k: int, n: int)
    requires
        b.wf(),
        arc.wf(),
        arc.spec_minor(),
        arc.p0 == b.p0,
        arc.p1 == b.p3,
        0 <= k <= n,
        n > 0,
    ensures
        b.spec_deviation(arc) >= 0,
        arc.spec_within(
            b.spec_point_x(k, n),
            b.spec_point_y(k, n),
            (n * n) * n,
            b.spec_deviation(arc),
        ),
{
    reveal(Bezier::spec_deviation);
    let s = (n * n) * n;
    let x = b.spec_point_x(k, n);
    let y = b.spec_point_y(k, n);
    lemma_hull_within(b, arc, k, n);
    if b.spec_controls_in_wedge(arc) && arc.spec_len2() > 0 {
        lemma_curve_in_wedge(b, arc, k, n);
        if arc.d == 0 {
            lemma_line_within(b, arc, k, n);
        } else {
            lemma_circle_within(b, arc, k, n);
        }
        assert(!arc.spec_scaled_at_end(x, y, s));
    }
}

/// Run the other way, a segment is fitted with the arc of the opposite
/// curvature: the same arc, run the other way.
pub proof fn lemma_fit_reversed(b: Bezier)
    requires
        b.wf(),
    ensures
        b.spec_reversed().spec_fit_d() == -b.spec_fit_d(),
        b.spec_reversed().spec_fit_arc().p0 == b.spec_fit_arc().p1,
        b.spec_reversed().spec_fit_arc().p1 == b.spec_fit_arc().p0,
{
    reveal(Bezier::spec_fit_d);
    let cx = b.p3.x - b.p0.x;
    let cy = b.p3.y - b.p0.y;
    let wx = b.q1.x + b.q2.x - 3 * b.p0.x - 3 * b.p3.x;
    let wy = b.q1.y + b.q2.y - 3 * b.p0.y - 3 * b.p3.y;
    let l2 = cx * cx + cy * cy;
    let num = CURVATURE_ONE * (wx * cy - wy * cx);
    assert((-cx) * (-cx) + (-cy) * (-cy) == l2 && CURVATURE_ONE * (wx * (-cy) - wy * (-cx))
        == -num) by (nonlinear_arith)
        requires
            l2 == cx * cx + cy * cy,
            num == CURVATURE_ONE * (wx * cy - wy * cx),
    ;
    if l2 != 0 {
        assert(l2 > 0) by (nonlinear_arith)
            requires
                l2 == cx * cx + cy * cy,
                l2 != 0,
        ;
        assert(-(abs(num) * (4 * l2)) <= num <= abs(num) * (4 * l2)) by (nonlinear_arith)
            requires
                l2 >= 1,
        ;
        crate::numeric::lemma_round_away_bound(num, 4 * l2, abs(num));
    }
}

/// What it says that the arc of a piece is taken: at every parameter
/// `k / n` the point of the piece lies within the tolerance of the fitted
/// arc, and closer by the drift of the piece.
pub proof fn lemma_accepted_within_tolerance(
    b: Bezier,
    tolerance: int,
    level: nat,
    k: int,
    n: int,
)
    requires
        b.wf(),
        b.spec_accepts(tolerance, level),
        0 <= k <= n,
        n > 0,
    ensures
        crate::fitter::spec_drift(level) >= 0,
        tolerance - crate::fitter::spec_drift(level) >= 0,
        b.spec_fit_arc().spec_within(
            b.spec_point_x(k, n),
            b.spec_point_y(k, n),
            (n * n) * n,
            tolerance - crate::fitter::spec_drift(level),
        ),
        b.spec_fit_arc().spec_within(
            b.spec_point_x(k, n),
            b.spec_point_y(k, n),
            (n * n) * n,
            tolerance,
        ),
{
    let arc = b.spec_fit_arc();
    crate::fitter::lemma_fit_arc_wf(b);
    lemma_deviation_bounds_curve(b, arc, k, n);
    lemma_ceil_quotient_bounded(ceil_sqrt(2 * (level * level)) as int, 2);
    assert((n * n) * n > 0) by (nonlinear_arith)
        requires
            n > 0,
    ;
    lemma_within_monotonic(
        arc,
        b.spec_point_x(k, n),
        b.spec_point_y(k, n),
        (n * n) * n,
        b.spec_deviation(arc),
        tolerance - crate::fitter::spec_drift(level),
    );
    lemma_within_monotonic(
        arc,
        b.spec_point_x(k, n),
        b.spec_point_y(k, n),
        (n * n) * n,
        b.spec_deviation(arc),
        tolerance,
    );
}

/// Where the halving converges, every arc of the chain is within the
/// tolerance of its piece: each arc of the chain stands for one piece of the
/// curve, and every point of the piece, at whatever parameter `k / n`, lies
/// within `tolerance` of the arc, and closer by the drift of the piece.
pub proof fn lemma_fit_within_tolerance(
    b: Bezier,
    tolerance: int,
    depth: nat,
    i: int,
    k: int,
    n: int,
)
    requires
        b.wf(),
        crate::fitter::spec_converges(b, tolerance, depth),
        0 <= i < crate::fitter::spec_approximate(b, tolerance, depth).len(),
        0 <= k <= n,
        n > 0,
    ensures
        i < crate::fitter::spec_pieces(b, tolerance, depth).len(),
        crate::fitter::spec_approximate(b, tolerance, depth)[i] == crate::fitter::spec_pieces(
            b,
            tolerance,
            depth,
        )[i].spec_fit_arc(),
        crate::fitter::spec_approximate(b, tolerance, depth)[i].spec_within(
            crate::fitter::spec_pieces(b, tolerance, depth)[i].spec_point_x(k, n),
            crate::fitter::spec_pieces(b, tolerance, depth)[i].spec_point_y(k, n),
            (n * n) * n,
            tolerance,
        ),
        crate::fitter::spec_approximate(b, tolerance, depth)[i].spec_within(
            crate::fitter::spec_pieces(b, tolerance, depth)[i].spec_point_x(k, n),
            crate::fitter::spec_pieces(b, tolerance, depth)[i].spec_point_y(k, n),
            (n * n) * n,
            tolerance - crate::fitter::spec_drift(
                crate::fitter::spec_piece_depth(b, tolerance, depth, i),
            ),
        ),
{
    crate::fitter::lemma_approximate_chain(b, tolerance, depth);
    crate::fitter::lemma_converged_within_tolerance(b, tolerance, depth, i);
    let piece = crate::fitter::spec_pieces(b, tolerance, depth)[i];
    assert(piece.wf());
    lemma_accepted_within_tolerance(
        piece,
        tolerance,
        crate::fitter::spec_piece_depth(b, tolerance, depth, i),
        k,
        n,
    );
}

/// The powers of `2 * j + k` and of `j + 2 * k`, by the weights of the
/// control points: what ties a point of a half of a curve to the point of
/// the curve itself.
#[verifier::rlimit(50)]
pub proof fn lemma_half_weights(j: int, k: int)
    ensures
        ({
            let a = 2 * j + k;
            let c = j + 2 * k;
            let m0 = (j * j) * j;
            let m1 = (j * j) * k;
            let m2 = j * (k * k);
            let m3 = (k * k) * k;
            &&& (a * a) * a == 8 * m0 + 12 * m1 + 6 * m2 + m3
            &&& (a * a) * k == 4 * m1 + 4 * m2 + m3
            &&& a * (k * k) == 2 * m2 + m3
            &&& (j * j) * c == m0 + 2 * m1
            &&& j * (c * c) == m0 + 4 * m1 + 4 * m2
            &&& (c * c) * c == m0 + 6 * m1 + 12 * m2 + 8 * m3
        }),
{
    let a = 2 * j + k;
    let c = j + 2 * k;
    let jj = j * j;
    let jk = j * k;
    let kk = k * k;
    let m0 = jj * j;
    let m1 = jj * k;
    let m2 = j * kk;
    let m3 = kk * k;
    assert(a * a == 4 * jj + 4 * jk + kk && c * c == jj + 4 * jk + 4 * kk) by (nonlinear_arith)
        requires
            a == 2 * j + k,
            c == j + 2 * k,
            jj == j * j,
            jk == j * k,
            kk == k * k,
    ;
    assert(jk * j == m1 && jk * k == m2 && kk * j == m2 && jj * k == m1) by (nonlinear_arith)
        requires
            jj == j * j,
            jk == j * k,
            kk == k * k,
            m1 == jj * k,
            m2 == j * kk,
    ;
    assert((4 * jj + 4 * jk + kk) * (2 * j + k) == 8 * (jj * j) + 4 * (jj * k) + 8 * (jk * j) + 4
        * (jk * k) + 2 * (kk * j) + kk * k) by (nonlinear_arith);
    assert((4 * jj + 4 * jk + kk) * k == 4 * (jj * k) + 4 * (jk * k) + kk * k)
        by (nonlinear_arith);
    assert((2 * j + k) * kk == 2 * (j * kk) + kk * k) by (nonlinear_arith);
    assert(jj * (j + 2 * k) == jj * j + 2 * (jj * k)) by (nonlinear_arith);
    assert(j * (jj + 4 * jk + 4 * kk) == jj * j + 4 * (jk * j) + 4 * (j * kk)) by (nonlinear_arith)
        requires
            jj == j * j,
    ;
    assert((jj + 4 * jk + 4 * kk) * (j + 2 * k) == jj * j + 2 * (jj * k) + 4 * (jk * j) + 8 * (jk
        * k) + 4 * (kk * j) + 8 * (kk * k)) by (nonlinear_arith);
}

/// Along one axis, a weighted sum of control points that are each off by at
/// most four eighths is off by at most four eighths of the whole weight.
pub proof fn lemma_half_axis(
    m0: int,
    m1: int,
    m2: int,
    m3: int,
    d0: int,
    d1: int,
    d2: int,
    d3: int,
    s: int,
)
    requires
        m0 >= 0 && m1 >= 0 && m2 >= 0 && m3 >= 0,
        s == m0 + 3 * m1 + 3 * m2 + m3,
        -4 <= d0 <= 4,
        -4 <= d1 <= 4,
        -4 <= d2 <= 4,
        -4 <= d3 <= 4,
    ensures
        -(4 * s) <= m0 * d0 + m1 * d1 + m2 * d2 + m3 * d3 <= 4 * s,
{
    assert(-(4 * m0) <= m0 * d0 <= 4 * m0 && -(4 * m1) <= m1 * d1 <= 4 * m1 && -(4 * m2) <= m2 * d2
        <= 4 * m2 && -(4 * m3) <= m3 * d3 <= 4 * m3) by (nonlinear_arith)
        requires
            m0 >= 0 && m1 >= 0 && m2 >= 0 && m3 >= 0,
            -4 <= d0 <= 4,
            -4 <= d1 <= 4,
            -4 <= d2 <= 4,
            -4 <= d3 <= 4,
    ;
}

/// One coordinate of a point of a half of a curve, not rounded and eight
/// times: it is that of the point of the curve itself. `j` and `k` are the
/// weights of the ends in the half, and `x0` to `x3` the coordinates of the
/// control points of the curve.
#[verifier::rlimit(50)]
pub proof fn lemma_half_exact(j: int, k: int, x0: int, x1: int, x2: int, x3: int)
    ensures
        ({
            let a = 2 * j + k;
            let c = j + 2 * k;
            let m0 = (j * j) * j;
            let m1 = (j * j) * k;
            let m2 = j * (k * k);
            let m3 = (k * k) * k;
            &&& ((a * a) * a) * x0 + ((a * a) * k) * x1 + (a * (k * k)) * x2 + ((k * k) * k) * x3
                == m0 * (8 * x0) + m1 * (12 * x0 + 4 * x1) + m2 * (6 * x0 + 4 * x1 + 2 * x2) + m3
                * (x0 + x1 + x2 + x3)
            &&& ((j * j) * j) * x0 + ((j * j) * c) * x1 + (j * (c * c)) * x2 + ((c * c) * c) * x3
                == m0 * (x0 + x1 + x2 + x3) + m1 * (2 * x1 + 4 * x2 + 6 * x3) + m2 * (4 * x2 + 12
                * x3) + m3 * (8 * x3)
        }),
{
    let m0 = (j * j) * j;
    let m1 = (j * j) * k;
    let m2 = j * (k * k);
    let m3 = (k * k) * k;
    lemma_half_weights(j, k);
    let e1 = 12 * x0 + 4 * x1;
    let e2 = 6 * x0 + 4 * x1 + 2 * x2;
    let e3 = x0 + x1 + x2 + x3;
    let f1 = 2 * x1 + 4 * x2 + 6 * x3;
    let f2 = 4 * x2 + 12 * x3;
    assert((8 * m0 + 12 * m1 + 6 * m2 + m3) * x0 == 8 * (m0 * x0) + 12 * (m1 * x0) + 6 * (m2 * x0)
        + m3 * x0) by (nonlinear_arith);
    assert((4 * m1 + 4 * m2 + m3) * x1 == 4 * (m1 * x1) + 4 * (m2 * x1) + m3 * x1)
        by (nonlinear_arith);
    assert((2 * m2 + m3) * x2 == 2 * (m2 * x2) + m3 * x2) by (nonlinear_arith);
    assert(m0 * (8 * x0) == 8 * (m0 * x0) && m1 * e1 == 12 * (m1 * x0) + 4 * (m1 * x1))
        by (nonlinear_arith)
        requires
            e1 == 12 * x0 + 4 * x1,
    ;
    assert(m2 * e2 == 6 * (m2 * x0) + 4 * (m2 * x1) + 2 * (m2 * x2)) by (nonlinear_arith)
        requires
            e2 == 6 * x0 + 4 * x1 + 2 * x2,
    ;
    assert(m3 * e3 == m3 * x0 + m3 * x1 + m3 * x2 + m3 * x3 && m0 * e3 == m0 * x0 + m0 * x1 + m0
        * x2 + m0 * x3) by (nonlinear_arith)
        requires
            e3 == x0 + x1 + x2 + x3,
    ;
    assert((m0 + 2 * m1) * x1 == m0 * x1 + 2 * (m1 * x1)) by (nonlinear_arith);
    assert((m0 + 4 * m1 + 4 * m2) * x2 == m0 * x2 + 4 * (m1 * x2) + 4 * (m2 * x2))
        by (nonlinear_arith);
    assert((m0 + 6 * m1 + 12 * m2 + 8 * m3) * x3 == m0 * x3 + 6 * (m1 * x3) + 12 * (m2 * x3) + 8
        * (m3 * x3)) by (nonlinear_arith);
    assert(m1 * f1 == 2 * (m1 * x1) + 4 * (m1 * x2) + 6 * (m1 * x3)) by (nonlinear_arith)
        requires
            f1 == 2 * x1 + 4 * x2 + 6 * x3,
    ;
    assert(m2 * f2 == 4 * (m2 * x2) + 12 * (m2 * x3) && m3 * (8 * x3) == 8 * (m3 * x3))
        by (nonlinear_arith)
        requires
            f2 == 4 * x2 + 12 * x3,
    ;
}

/// One coordinate of a point of a half of a curve, against the point of the
/// curve itself: `x0` to `x3` are the coordinates of the control points,
/// `l1` to `l3` those of the first half and `r0` to `r2` those of the second,
/// each rounded from the exact half.
#[verifier::rlimit(50)]
pub proof fn lemma_half_coordinate(
    j: int,
    k: int,
    x0: int,
    x1: int,
    x2: int,
    x3: int,
    l1: int,
    l2: int,
    l3: int,
    r1: int,
    r2: int,
)
    requires
        j >= 0,
        k >= 0,
        -2 <= 2 * (2 * l1 - (3 * x0 + x1)) <= 2,
        -4 <= 2 * (4 * l2 - (3 * x0 + 2 * x1 + x2)) <= 4,
        -8 <= 2 * (8 * l3 - (x0 + x1 + x2 + x3)) <= 8,
        -4 <= 2 * (4 * r1 - (x1 + 2 * x2 + 3 * x3)) <= 4,
        -2 <= 2 * (2 * r2 - (x2 + 3 * x3)) <= 2,
    ensures
        ({
            let n = j + k;
            let s = (n * n) * n;
            let a = 2 * j + k;
            let c = j + 2 * k;
            let m0 = (j * j) * j;
            let m1 = (j * j) * k;
            let m2 = j * (k * k);
            let m3 = (k * k) * k;
            let left = m0 * x0 + m1 * l1 + m2 * l2 + m3 * l3;
            let right = m0 * l3 + m1 * r1 + m2 * r2 + m3 * x3;
            let whole_left = ((a * a) * a) * x0 + ((a * a) * k) * x1 + (a * (k * k)) * x2 + ((k
                * k) * k) * x3;
            let whole_right = ((j * j) * j) * x0 + ((j * j) * c) * x1 + (j * (c * c)) * x2 + ((c
                * c) * c) * x3;
            &&& -(4 * s) <= 8 * left - whole_left <= 4 * s
            &&& -(4 * s) <= 8 * right - whole_right <= 4 * s
        }),
{
    let n = j + k;
    let s = (n * n) * n;
    let m0 = (j * j) * j;
    let m1 = (j * j) * k;
    let m2 = j * (k * k);
    let m3 = (k * k) * k;
    lemma_weights(k, n);
    lemma_half_exact(j, k, x0, x1, x2, x3);
    // the exact halves, times eight
    let e1 = 12 * x0 + 4 * x1;
    let e2 = 6 * x0 + 4 * x1 + 2 * x2;
    let e3 = x0 + x1 + x2 + x3;
    let f1 = 2 * x1 + 4 * x2 + 6 * x3;
    let f2 = 4 * x2 + 12 * x3;
    let a = 2 * j + k;
    let c = j + 2 * k;
    let whole_left = ((a * a) * a) * x0 + ((a * a) * k) * x1 + (a * (k * k)) * x2 + ((k * k) * k)
        * x3;
    let whole_right = ((j * j) * j) * x0 + ((j * j) * c) * x1 + (j * (c * c)) * x2 + ((c * c) * c)
        * x3;
    let left = m0 * x0 + m1 * l1 + m2 * l2 + m3 * l3;
    let right = m0 * l3 + m1 * r1 + m2 * r2 + m3 * x3;
    assert(m0 * (8 * x0) == 8 * (m0 * x0) && m3 * (8 * x3) == 8 * (m3 * x3)) by (nonlinear_arith);
    assert(m0 * 0 == 0 && m3 * 0 == 0);
    assert(m1 * (8 * l1 - e1) == 8 * (m1 * l1) - m1 * e1 && m2 * (8 * l2 - e2) == 8 * (m2 * l2) - m2
        * e2 && m3 * (8 * l3 - e3) == 8 * (m3 * l3) - m3 * e3) by (nonlinear_arith);
    assert(m0 * (8 * l3 - e3) == 8 * (m0 * l3) - m0 * e3 && m1 * (8 * r1 - f1) == 8 * (m1 * r1) - m1
        * f1 && m2 * (8 * r2 - f2) == 8 * (m2 * r2) - m2 * f2) by (nonlinear_arith);
    assert(8 * left - whole_left == m0 * 0 + m1 * (8 * l1 - e1) + m2 * (8 * l2 - e2) + m3 * (8 * l3
        - e3));
    assert(8 * right - whole_right == m0 * (8 * l3 - e3) + m1 * (8 * r1 - f1) + m2 * (8 * r2 - f2)
        + m3 * 0);
    lemma_half_axis(m0, m1, m2, m3, 0, 8 * l1 - e1, 8 * l2 - e2, 8 * l3 - e3, s);
    lemma_half_axis(m0, m1, m2, m3, 8 * l3 - e3, 8 * r1 - f1, 8 * r2 - f2, 0, s);
}

/// Each halving keeps to the curve: every point of a half, at the parameter
/// `k / n`, lies within half a lattice unit along each axis of the point of
/// the curve that it stands for, at `k / (2 * n)` in the first half and at
/// `(n + k) / (2 * n)` in the second. The scales are the cube of `n` for the
/// half and the cube of `2 * n` for the curve.
#[verifier::rlimit(50)]
pub proof fn lemma_halves_keep_to_curve(b: Bezier, k: int, n: int)
    requires
        b.wf(),
        0 <= k <= n,
        n > 0,
    ensures
        ({
            let s = (n * n) * n;
            let left = b.spec_left();
            let right = b.spec_right();
            &&& -(4 * s) <= 8 * left.spec_point_x(k, n) - b.spec_point_x(k, 2 * n) <= 4 * s
            &&& -(4 * s) <= 8 * left.spec_point_y(k, n) - b.spec_point_y(k, 2 * n) <= 4 * s
            &&& -(4 * s) <= 8 * right.spec_point_x(k, n) - b.spec_point_x(n + k, 2 * n) <= 4 * s
            &&& -(4 * s) <= 8 * right.spec_point_y(k, n) - b.spec_point_y(n + k, 2 * n) <= 4 * s
        }),
{
    reveal(Bezier::spec_left);
    reveal(Bezier::spec_right);
    let j = n - k;
    let left = b.spec_left();
    let right = b.spec_right();
    crate::fitter::lemma_split_exact(b);
    crate::numeric::lemma_round_away_error(3 * b.p0.x + b.q1.x, 2);
    crate::numeric::lemma_round_away_error(3 * b.p0.y + b.q1.y, 2);
    crate::numeric::lemma_round_away_error(3 * b.p0.x + 2 * b.q1.x + b.q2.x, 4);
    crate::numeric::lemma_round_away_error(3 * b.p0.y + 2 * b.q1.y + b.q2.y, 4);
    crate::numeric::lemma_round_away_error(b.p0.x + b.q1.x + b.q2.x + b.p3.x, 8);
    crate::numeric::lemma_round_away_error(b.p0.y + b.q1.y + b.q2.y + b.p3.y, 8);
    crate::numeric::lemma_round_away_error(b.q1.x + 2 * b.q2.x + 3 * b.p3.x, 4);
    crate::numeric::lemma_round_away_error(b.q1.y + 2 * b.q2.y + 3 * b.p3.y, 4);
    crate::numeric::lemma_round_away_error(b.q2.x + 3 * b.p3.x, 2);
    crate::numeric::lemma_round_away_error(b.q2.y + 3 * b.p3.y, 2);
    lemma_half_coordinate(
        j,
        k,
        b.p0.x as int,
        b.q1.x as int,
        b.q2.x as int,
        b.p3.x as int,
        left.q1.x as int,
        left.q2.x as int,
        left.p3.x as int,
        right.q1.x as int,
        right.q2.x as int,
    );
    lemma_half_coordinate(
        j,
        k,
        b.p0.y as int,
        b.q1.y as int,
        b.q2.y as int,
        b.p3.y as int,
        left.q1.y as int,
        left.q2.y as int,
        left.p3.y as int,
        right.q1.y as int,
        right.q2.y as int,
    );
    assert(2 * n - k == 2 * j + k && 2 * n - (n + k) == j && n + k == j + 2 * k);
}

} // verus!
