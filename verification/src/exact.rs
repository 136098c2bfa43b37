//! What the distances to arcs say of the points of the arcs.
//!
//! The distance to a straight arc is exact: it is the Euclidean distance
//! from the point to the nearest point of the chord, rounded down to whole
//! lattice units. The distance to a curved arc never overstates how far the
//! arc is: no point of the arc is nearer than the distance less one unit.
//!
//! A point of a chord is given by a fraction `i / m` of the way from `p0` to
//! `p1`, a point of an arc by its parameter `a / b` between `-1` and `1`.

use vstd::prelude::*;
use crate::arc_list::{lemma_arcs_wf, spec_arcs};
use crate::geometry::{Arc, ArcEndpoint, Point, CURVATURE_ONE, arc_list_wf};
use crate::numeric::{abs, isqrt, lemma_isqrt_exists};
use crate::sdf::{
    lemma_distance_is_rounded_down,
    lemma_min_distance_is_least,
    spec_dist2,
    spec_min_distance,
    spec_sdf,
};

verus! {

impl Arc {
    /// The squared distance from `p` to the point of the chord at the
    /// fraction `i / m` of the way from `p0` to `p1`, times the square of `m`.
    pub open spec fn spec_chord_gap2(&self, p: Point, i: int, m: int) -> int {
        (m * (p.x - self.p0.x) - i * (self.p1.x - self.p0.x)) * (m * (p.x - self.p0.x) - i * (
        self.p1.x - self.p0.x)) + (m * (p.y - self.p0.y) - i * (self.p1.y - self.p0.y)) * (m * (p.y
            - self.p0.y) - i * (self.p1.y - self.p0.y))
    }

    /// The numerator of the fraction of the way at which the chord is nearest
    /// to `p`: the foot of the perpendicular in the wedge, else an end.
    pub open spec fn spec_nearest_fraction_num(&self, p: Point) -> int {
        if self.spec_len2() == 0 || self.spec_along(p) <= 0 {
            0
        } else if self.spec_along(p) >= self.spec_len2() {
            self.spec_len2()
        } else {
            self.spec_along(p)
        }
    }

    /// The denominator of that fraction.
    pub open spec fn spec_nearest_fraction_den(&self, p: Point) -> int {
        if self.spec_len2() == 0 {
            1
        } else {
            self.spec_len2()
        }
    }
}

/// The square of `m * a - i * c`, written out.
pub proof fn lemma_square_of_difference(m: int, a: int, i: int, c: int)
    ensures
        (m * a - i * c) * (m * a - i * c) == (m * m) * (a * a) - (2 * (m * i)) * (a * c) + (i * i)
            * (c * c),
{
    let u = m * a;
    let w = i * c;
    assert((u - w) * (u - w) == u * u - 2 * (u * w) + w * w) by (nonlinear_arith);
    assert(u * u == (m * m) * (a * a)) by (nonlinear_arith)
        requires
            u == m * a,
    ;
    assert(w * w == (i * i) * (c * c)) by (nonlinear_arith)
        requires
            w == i * c,
    ;
    assert(u * w == (m * i) * (a * c)) by (nonlinear_arith)
        requires
            u == m * a,
            w == i * c,
    ;
    assert((2 * (m * i)) * (a * c) == 2 * ((m * i) * (a * c))) by (nonlinear_arith);
}

/// The squared distance to a point of the chord, written out.
#[verifier::rlimit(50)]
pub proof fn lemma_chord_gap2(arc: Arc, p: Point, i: int, m: int)
    ensures
        arc.spec_chord_gap2(p, i, m) == (m * m) * spec_dist2(p, arc.p0) - (2 * (m * i))
            * arc.spec_along(p) + (i * i) * arc.spec_len2(),
        arc.spec_chord_gap2(p, i, m) == (m * m) * spec_dist2(p, arc.p1) + (2 * (m * (m - i))) * (
        arc.spec_along(p) - arc.spec_len2()) + ((m - i) * (m - i)) * arc.spec_len2(),
        arc.spec_len2() * arc.spec_chord_gap2(p, i, m) >= (m * m) * (arc.spec_cross(p)
            * arc.spec_cross(p)),
        arc.spec_len2() * spec_dist2(p, arc.p0) == arc.spec_along(p) * arc.spec_along(p)
            + arc.spec_cross(p) * arc.spec_cross(p),
        spec_dist2(p, arc.p1) == spec_dist2(p, arc.p0) - 2 * arc.spec_along(p) + arc.spec_len2(),
{
    let ax = p.x - arc.p0.x;
    let ay = p.y - arc.p0.y;
    let cx = arc.p1.x - arc.p0.x;
    let cy = arc.p1.y - arc.p0.y;
    let gx = m * ax - i * cx;
    let gy = m * ay - i * cy;
    let a2 = ax * ax + ay * ay;
    let l2 = cx * cx + cy * cy;
    let along = ax * cx + ay * cy;
    let cross = cx * ay - cy * ax;
    let j = m - i;
    assert(spec_dist2(p, arc.p0) == a2);
    assert(arc.spec_along(p) == along);
    assert(arc.spec_cross(p) == cross);
    assert(arc.spec_len2() == l2);
    // the square of a difference, twice
    lemma_square_of_difference(m, ax, i, cx);
    lemma_square_of_difference(m, ay, i, cy);
    assert((m * m) * a2 == (m * m) * (ax * ax) + (m * m) * (ay * ay) && (2 * (m * i)) * along == (
    2 * (m * i)) * (ax * cx) + (2 * (m * i)) * (ay * cy) && (i * i) * l2 == (i * i) * (cx * cx) + (
    i * i) * (cy * cy)) by (nonlinear_arith)
        requires
            a2 == ax * ax + ay * ay,
            along == ax * cx + ay * cy,
            l2 == cx * cx + cy * cy,
    ;
    let gap2 = gx * gx + gy * gy;
    assert(gap2 == (m * m) * a2 - (2 * (m * i)) * along + (i * i) * l2);
    // the same from the other end
    let bx = p.x - arc.p1.x;
    let by = p.y - arc.p1.y;
    let b2 = bx * bx + by * by;
    assert(b2 == a2 - 2 * along + l2) by (nonlinear_arith)
        requires
            bx == ax - cx,
            by == ay - cy,
            b2 == bx * bx + by * by,
            a2 == ax * ax + ay * ay,
            along == ax * cx + ay * cy,
            l2 == cx * cx + cy * cy,
    ;
    assert((m * m) * b2 == (m * m) * a2 - 2 * ((m * m) * along) + (m * m) * l2)
        by (nonlinear_arith)
        requires
            b2 == a2 - 2 * along + l2,
    ;
    assert((2 * (m * j)) * (along - l2) == 2 * ((m * m) * along) - (2 * (m * i)) * along - 2 * ((m
        * m) * l2) + (2 * (m * i)) * l2) by (nonlinear_arith)
        requires
            j == m - i,
    ;
    assert((j * j) * l2 == (m * m) * l2 - (2 * (m * i)) * l2 + (i * i) * l2) by (nonlinear_arith)
        requires
            j == m - i,
    ;
    // the squared length of a vector, times that of the chord, is the sum
    // of the squares of its products with the chord
    crate::deviation::lemma_turned_length(cx, cy, gx, gy);
    assert(cx * gy - cy * gx == m * cross) by (nonlinear_arith)
        requires
            gx == m * ax - i * cx,
            gy == m * ay - i * cy,
            cross == cx * ay - cy * ax,
    ;
    let dot = cx * gx + cy * gy;
    let crs = cy * gx - cx * gy;
    assert(crs * crs == (m * m) * (cross * cross)) by (nonlinear_arith)
        requires
            crs == -(m * cross),
    ;
    assert(dot * dot >= 0) by (nonlinear_arith);
    assert(l2 * gap2 == (cx * cx + cy * cy) * (gx * gx + gy * gy));
    crate::deviation::lemma_turned_length(cx, cy, ax, ay);
    assert((cy * ax - cx * ay) * (cy * ax - cx * ay) == cross * cross) by (nonlinear_arith)
        requires
            cross == cx * ay - cy * ax,
    ;
    assert(cx * ax + cy * ay == along) by (nonlinear_arith)
        requires
            along == ax * cx + ay * cy,
    ;
}

/// On a straight arc, `p` lies in the wedge where the foot of the
/// perpendicular from `p` lies between the ends.
pub proof fn lemma_straight_wedge(arc: Arc, p: Point)
    requires
        arc.d == 0,
    ensures
        arc.spec_in_wedge(p) <==> 0 <= arc.spec_along(p) <= arc.spec_len2(),
{
    let ax = p.x - arc.p0.x;
    let ay = p.y - arc.p0.y;
    let bx = p.x - arc.p1.x;
    let by = p.y - arc.p1.y;
    let cx = arc.p1.x - arc.p0.x;
    let cy = arc.p1.y - arc.p0.y;
    let along = arc.spec_along(p);
    let l2 = arc.spec_len2();
    assert(CURVATURE_ONE * CURVATURE_ONE - arc.d * arc.d == 268435456 && 2 * (arc.d
        * CURVATURE_ONE) == 0) by (nonlinear_arith)
        requires
            arc.d == 0,
            CURVATURE_ONE == 16384,
    ;
    assert(ax * (cx * 268435456 + cy * 0) + ay * (cy * 268435456 - cx * 0) == 268435456 * (ax * cx
        + ay * cy)) by (nonlinear_arith);
    assert(bx * (cx * 268435456 - cy * 0) + by * (cy * 268435456 + cx * 0) == 268435456 * (bx * cx
        + by * cy)) by (nonlinear_arith);
    assert(bx * cx + by * cy == along - l2) by (nonlinear_arith)
        requires
            bx == ax - cx,
            by == ay - cy,
            along == ax * cx + ay * cy,
            l2 == cx * cx + cy * cy,
    ;
}

/// No point of the chord of a straight arc is nearer to `p` than the
/// distance says.
#[verifier::rlimit(50)]
pub proof fn lemma_straight_distance_is_least(arc: Arc, p: Point, i: int, m: int)
    requires
        arc.d == 0,
        m > 0,
        0 <= i <= m,
    ensures
        (arc.spec_distance(p) * m) * (arc.spec_distance(p) * m) <= arc.spec_chord_gap2(p, i, m),
{
    let e = arc.spec_distance(p);
    let l2 = arc.spec_len2();
    let along = arc.spec_along(p);
    let cross = arc.spec_cross(p);
    let gap2 = arc.spec_chord_gap2(p, i, m);
    let a2 = spec_dist2(p, arc.p0);
    let b2 = spec_dist2(p, arc.p1);
    let cx = arc.p1.x - arc.p0.x;
    let cy = arc.p1.y - arc.p0.y;
    lemma_distance_is_rounded_down(arc, p);
    lemma_straight_wedge(arc, p);
    lemma_chord_gap2(arc, p, i, m);
    assert(l2 >= 0) by (nonlinear_arith)
        requires
            l2 == cx * cx + cy * cy,
    ;
    assert((e * m) * (e * m) == (m * m) * (e * e)) by (nonlinear_arith);
    if l2 > 0 && 0 <= along <= l2 {
        assert((m * m) * (e * e) <= gap2) by (nonlinear_arith)
            requires
                (e * e) * l2 <= cross * cross,
                l2 * gap2 >= (m * m) * (cross * cross),
                l2 > 0,
                m > 0,
        ;
    } else if l2 == 0 || along < 0 {
        assert(l2 == 0 ==> along == 0) by (nonlinear_arith)
            requires
                l2 == cx * cx + cy * cy,
                along == (p.x - arc.p0.x) * cx + (p.y - arc.p0.y) * cy,
        ;
        assert((m * m) * (e * e) <= gap2) by (nonlinear_arith)
            requires
                gap2 == (m * m) * a2 - (2 * (m * i)) * along + (i * i) * l2,
                e * e <= a2,
                along <= 0,
                l2 >= 0,
                m > 0,
                0 <= i,
        ;
    } else {
        assert((m * m) * (e * e) <= gap2) by (nonlinear_arith)
            requires
                gap2 == (m * m) * b2 + (2 * (m * (m - i))) * (along - l2) + ((m - i) * (m - i))
                    * l2,
                e * e <= b2,
                along > l2,
                l2 >= 0,
                m > 0,
                i <= m,
        ;
    }
}

/// A point of the chord of a straight arc is as near to `p` as the distance
/// says, to within the rounding: the nearest point is less than one lattice
/// unit farther.
#[verifier::rlimit(50)]
pub proof fn lemma_straight_distance_is_attained(arc: Arc, p: Point)
    requires
        arc.d == 0,
    ensures
        arc.spec_nearest_fraction_den(p) > 0,
        0 <= arc.spec_nearest_fraction_num(p) <= arc.spec_nearest_fraction_den(p),
        arc.spec_chord_gap2(p, arc.spec_nearest_fraction_num(p), arc.spec_nearest_fraction_den(p))
            < ((arc.spec_distance(p) + 1) * arc.spec_nearest_fraction_den(p)) * ((
        arc.spec_distance(p) + 1) * arc.spec_nearest_fraction_den(p)),
{
    let e = arc.spec_distance(p);
    let l2 = arc.spec_len2();
    let along = arc.spec_along(p);
    let cross = arc.spec_cross(p);
    let i = arc.spec_nearest_fraction_num(p);
    let m = arc.spec_nearest_fraction_den(p);
    let gap2 = arc.spec_chord_gap2(p, i, m);
    let a2 = spec_dist2(p, arc.p0);
    let b2 = spec_dist2(p, arc.p1);
    let cx = arc.p1.x - arc.p0.x;
    let cy = arc.p1.y - arc.p0.y;
    lemma_distance_is_rounded_down(arc, p);
    lemma_straight_wedge(arc, p);
    lemma_chord_gap2(arc, p, i, m);
    assert(l2 >= 0) by (nonlinear_arith)
        requires
            l2 == cx * cx + cy * cy,
    ;
    assert(((e + 1) * m) * ((e + 1) * m) == (m * m) * ((e + 1) * (e + 1))) by (nonlinear_arith);
    if l2 == 0 {
        assert(along == 0) by (nonlinear_arith)
            requires
                l2 == 0,
                l2 == cx * cx + cy * cy,
                along == (p.x - arc.p0.x) * cx + (p.y - arc.p0.y) * cy,
        ;
        assert(gap2 == a2) by (nonlinear_arith)
            requires
                gap2 == (m * m) * a2 - (2 * (m * i)) * along + (i * i) * l2,
                m == 1,
                i == 0,
        ;
        assert(a2 == b2);
        assert((m * m) * ((e + 1) * (e + 1)) == (e + 1) * (e + 1)) by (nonlinear_arith)
            requires
                m == 1,
        ;
    } else if along <= 0 {
        // the first end; it is the nearer one
        assert(gap2 == (m * m) * a2) by (nonlinear_arith)
            requires
                gap2 == (m * m) * a2 - (2 * (m * i)) * along + (i * i) * l2,
                i == 0,
        ;
        assert(a2 <= b2);
        if along == 0 {
            // in the wedge, with the foot at the end: the distance to the line
            assert(l2 * a2 == cross * cross) by (nonlinear_arith)
                requires
                    l2 * a2 == along * along + cross * cross,
                    along == 0,
            ;
            assert(a2 < (e + 1) * (e + 1)) by (nonlinear_arith)
                requires
                    l2 * a2 == cross * cross,
                    cross * cross < ((e + 1) * (e + 1)) * l2,
                    l2 > 0,
            ;
        }
        assert((m * m) * a2 < (m * m) * ((e + 1) * (e + 1))) by (nonlinear_arith)
            requires
                a2 < (e + 1) * (e + 1),
                m > 0,
        ;
    } else if along >= l2 {
        assert(gap2 == (m * m) * b2) by (nonlinear_arith)
            requires
                gap2 == (m * m) * b2 + (2 * (m * (m - i))) * (along - l2) + ((m - i) * (m - i))
                    * l2,
                i == m,
        ;
        assert(b2 <= a2);
        if along == l2 {
            assert(l2 * b2 == cross * cross) by (nonlinear_arith)
                requires
                    l2 * a2 == along * along + cross * cross,
                    b2 == a2 - 2 * along + l2,
                    along == l2,
            ;
            assert(b2 < (e + 1) * (e + 1)) by (nonlinear_arith)
                requires
                    l2 * b2 == cross * cross,
                    cross * cross < ((e + 1) * (e + 1)) * l2,
                    l2 > 0,
            ;
        }
        assert((m * m) * b2 < (m * m) * ((e + 1) * (e + 1))) by (nonlinear_arith)
            requires
                b2 < (e + 1) * (e + 1),
                m > 0,
        ;
    } else {
        // the foot of the perpendicular
        assert(gap2 == l2 * (cross * cross)) by (nonlinear_arith)
            requires
                gap2 == (m * m) * a2 - (2 * (m * i)) * along + (i * i) * l2,
                m == l2,
                i == along,
                l2 * a2 == along * along + cross * cross,
        ;
        assert(l2 * (cross * cross) < (m * m) * ((e + 1) * (e + 1))) by (nonlinear_arith)
            requires
                cross * cross < ((e + 1) * (e + 1)) * l2,
                m == l2,
                l2 > 0,
        ;
    }
}

impl Arc {
    /// The squared distance from `p` to the point of the arc at the
    /// parameter `a / b`, times the square of `sample_den(a, b)`.
    pub open spec fn spec_sample_gap2(&self, p: Point, a: int, b: int) -> int {
        (self.sample_den(a, b) * p.x - self.sample_x(a, b)) * (self.sample_den(a, b) * p.x
            - self.sample_x(a, b)) + (self.sample_den(a, b) * p.y - self.sample_y(a, b)) * (
        self.sample_den(a, b) * p.y - self.sample_y(a, b))
    }
}

/// The vector from the centre to a point is linear in the point: the
/// difference of two such vectors, one of them on the scale `den`.
pub proof fn lemma_center_difference(den: int, v: int, c: int, s: int, x: int, w: int)
    ensures
        den * (v * (2 * c - s) + w) - (v * (2 * x - den * s) + den * w) == (2 * v) * (den * c - x),
{
    let e1 = 2 * c - s;
    let e2 = 2 * x - den * s;
    assert(den * (v * e1 + w) == v * (den * e1) + den * w) by (nonlinear_arith);
    assert(den * e1 == 2 * (den * c) - den * s) by (nonlinear_arith)
        requires
            e1 == 2 * c - s,
    ;
    assert(v * (den * e1) - v * e2 == v * (den * e1 - e2)) by (nonlinear_arith);
    assert(den * e1 - e2 == 2 * (den * c - x));
    assert(v * (2 * (den * c - x)) == (2 * v) * (den * c - x)) by (nonlinear_arith);
}

/// The product of two vectors is at most the product of their lengths.
pub proof fn lemma_dot_bound(px: int, py: int, qx: int, qy: int)
    ensures
        (px * qx + py * qy) * (px * qx + py * qy) <= (px * px + py * py) * (qx * qx + qy * qy),
{
    crate::deviation::lemma_turned_length(px, py, qx, qy);
    let w = py * qx - px * qy;
    assert(w * w >= 0) by (nonlinear_arith);
}

/// The difference of two square roots, from bounds of the roots: where `x`
/// is at most the root of `a` and `y` at least the root of `b`, and `t` at
/// most the root of `a * b`, then `a + b - 2 * t` is at least the square of
/// `x - y`.
#[verifier::rlimit(50)]
pub proof fn lemma_root_difference(a: int, b: int, t: int, x: int, y: int)
    requires
        0 <= y <= x,
        x * x <= a,
        0 <= b <= y * y,
        t * t <= a * b,
    ensures
        (x - y) * (x - y) <= a + b - 2 * t,
{
    let al = a - x * x;
    let be = y * y - b;
    let f = a + b - (x - y) * (x - y);
    assert((x - y) * (x - y) == x * x - 2 * (x * y) + y * y) by (nonlinear_arith);
    assert(f == 2 * (x * y) + al - be);
    assert(x * y >= y * y) by (nonlinear_arith)
        requires
            0 <= y <= x,
    ;
    assert(f >= 0);
    // f * f - 4 * a * b == (al + be)^2 + 4 * al * y * (x - y) + 4 * be * x * (x - y)
    let xy = x * y;
    let xx = x * x;
    let yy = y * y;
    assert(a * b == xx * yy - xx * be + al * yy - al * be) by (nonlinear_arith)
        requires
            a == xx + al,
            b == yy - be,
    ;
    assert(f * f == 4 * (xy * xy) + al * al + be * be + 4 * (xy * al) - 4 * (xy * be) - 2 * (al
        * be)) by (nonlinear_arith)
        requires
            f == 2 * xy + al - be,
    ;
    assert(xy * xy == xx * yy) by (nonlinear_arith)
        requires
            xy == x * y,
            xx == x * x,
            yy == y * y,
    ;
    assert(xy * al - al * yy == (al * y) * (x - y) && xx * be - xy * be == (be * x) * (x - y))
        by (nonlinear_arith)
        requires
            xy == x * y,
            xx == x * x,
            yy == y * y,
    ;
    assert((al * y) * (x - y) >= 0 && (be * x) * (x - y) >= 0) by (nonlinear_arith)
        requires
            al >= 0,
            be >= 0,
            0 <= y <= x,
    ;
    assert((al + be) * (al + be) == al * al + 2 * (al * be) + be * be && (al + be) * (al + be)
        >= 0) by (nonlinear_arith);
    assert(f * f >= 4 * (a * b));
    assert(2 * t <= f) by (nonlinear_arith)
        requires
            t * t <= a * b,
            f * f >= 4 * (a * b),
            f >= 0,
    ;
}

/// In the wedge of a curved arc no point of the arc's circle is nearer to
/// `p` than the distance says, less the unit of the scaled radius: with `e`
/// the distance and `k = 4 * |d| * CURVATURE_ONE`, every point of the circle
/// is at least `e - 1 / k` away.
#[verifier::rlimit(50)]
pub proof fn lemma_curved_distance_is_least(arc: Arc, p: Point, a: int, b: int)
    requires
        arc.d != 0,
        arc.spec_in_wedge(p),
        b > 0,
        arc.spec_distance(p) >= 1,
    ensures
        ((arc.spec_distance(p) * (4 * abs(arc.d * CURVATURE_ONE)) - 1) * arc.sample_den(a, b)) * ((
        arc.spec_distance(p) * (4 * abs(arc.d * CURVATURE_ONE)) - 1) * arc.sample_den(a, b)) <= ((4
            * abs(arc.d * CURVATURE_ONE)) * (4 * abs(arc.d * CURVATURE_ONE)))
            * arc.spec_sample_gap2(p, a, b),
{
    let e = arc.spec_distance(p);
    let n = arc.d as int;
    let k = 4 * abs(n * CURVATURE_ONE);
    let v = 2 * (n * CURVATURE_ONE);
    let u = CURVATURE_ONE * CURVATURE_ONE - n * n;
    let cx = arc.p1.x - arc.p0.x;
    let cy = arc.p1.y - arc.p0.y;
    let sx = arc.p0.x + arc.p1.x;
    let sy = arc.p0.y + arc.p1.y;
    let den = arc.sample_den(a, b);
    let x = arc.sample_x(a, b);
    let y = arc.sample_y(a, b);
    // the vectors from the centre to `p` and to the point of the circle
    let px = v * (2 * p.x - sx) + cy * u;
    let py = v * (2 * p.y - sy) - cx * u;
    let qx = v * (2 * x - den * sx) + (den * cy) * u;
    let qy = v * (2 * y - den * sy) - (den * cx) * u;
    let aa = arc.spec_from_center2(p);
    let rr = arc.spec_radius2();
    assert(aa == px * px + py * py);
    crate::deviation::lemma_sample_on_circle(arc, a, b);
    assert(qx * qx + qy * qy == (den * den) * rr);
    let gx = den * p.x - x;
    let gy = den * p.y - y;
    assert((den * cy) * u == den * (cy * u) && (den * cx) * u == den * (cx * u))
        by (nonlinear_arith);
    lemma_center_difference(den, v, p.x as int, sx, x, cy * u);
    lemma_center_difference(den, v, p.y as int, sy, y, -(cx * u));
    assert(den * (-(cx * u)) == -(den * (cx * u))) by (nonlinear_arith);
    assert(den * px - qx == (2 * v) * gx);
    assert(den * py - qy == (2 * v) * gy);
    let t = (den * px) * qx + (den * py) * qy;
    let a1 = (den * px) * (den * px) + (den * py) * (den * py);
    let b1 = qx * qx + qy * qy;
    lemma_dot_bound(den * px, den * py, qx, qy);
    assert(t * t <= a1 * b1);
    assert(a1 == (den * den) * aa) by (nonlinear_arith)
        requires
            a1 == (den * px) * (den * px) + (den * py) * (den * py),
            aa == px * px + py * py,
    ;
    // the squared distance, on the scale of the vectors
    let g2 = ((2 * v) * gx) * ((2 * v) * gx) + ((2 * v) * gy) * ((2 * v) * gy);
    assert(g2 == a1 + b1 - 2 * t) by (nonlinear_arith)
        requires
            g2 == (den * px - qx) * (den * px - qx) + (den * py - qy) * (den * py - qy),
            t == (den * px) * qx + (den * py) * qy,
            a1 == (den * px) * (den * px) + (den * py) * (den * py),
            b1 == qx * qx + qy * qy,
    ;
    let v2 = 2 * v;
    assert(k * k == v2 * v2) by (nonlinear_arith)
        requires
            k == v2 || k == -v2,
    ;
    assert((v2 * gx) * (v2 * gx) == (v2 * v2) * (gx * gx) && (v2 * gy) * (v2 * gy) == (v2 * v2) * (
    gy * gy)) by (nonlinear_arith);
    assert((v2 * v2) * (gx * gx + gy * gy) == (v2 * v2) * (gx * gx) + (v2 * v2) * (gy * gy))
        by (nonlinear_arith);
    assert(g2 == (k * k) * arc.spec_sample_gap2(p, a, b));
    // the roots, rounded down
    assert(aa >= 0 && b1 >= 0) by (nonlinear_arith)
        requires
            aa == px * px + py * py,
            b1 == qx * qx + qy * qy,
    ;
    assert(den > 0) by {
        assert((b * b) * (CURVATURE_ONE * CURVATURE_ONE) > 0 && (a * a) * (n * n) >= 0)
            by (nonlinear_arith)
            requires
                b > 0,
                CURVATURE_ONE == 16384,
        ;
    }
    assert(rr >= 0) by (nonlinear_arith)
        requires
            b1 == (den * den) * rr,
            b1 >= 0,
            den > 0,
    ;
    let sa = isqrt(aa as nat) as int;
    let sr = isqrt(rr as nat) as int;
    lemma_isqrt_exists(aa as nat);
    lemma_isqrt_exists(rr as nat);
    lemma_distance_is_rounded_down(arc, p);
    let gap = abs(sa - sr);
    assert(e * k <= gap);
    assert(k > 0) by (nonlinear_arith)
        requires
            k == 4 * abs(n * CURVATURE_ONE),
            n != 0,
            CURVATURE_ONE == 16384,
    ;
    assert(e * k >= 1) by (nonlinear_arith)
        requires
            e >= 1,
            k >= 1,
    ;
    let hi = if sa >= sr { sa } else { sr };
    let lo = if sa >= sr { sr } else { sa };
    // the larger root from below and the smaller from above, on the scale of
    // the point of the circle
    let xr = den * hi;
    let yr = den * (lo + 1);
    assert(0 <= yr <= xr) by (nonlinear_arith)
        requires
            xr == den * hi,
            yr == den * (lo + 1),
            den > 0,
            0 <= lo,
            lo + 1 <= hi,
    ;
    if sa >= sr {
        assert(xr * xr <= a1 && b1 <= yr * yr) by (nonlinear_arith)
            requires
                xr == den * sa,
                yr == den * (sr + 1),
                sa * sa <= aa,
                rr < (sr + 1) * (sr + 1),
                a1 == (den * den) * aa,
                b1 == (den * den) * rr,
                den > 0,
        ;
        assert(t * t <= a1 * b1);
        lemma_root_difference(a1, b1, t, xr, yr);
    } else {
        assert(xr * xr <= b1 && a1 <= yr * yr) by (nonlinear_arith)
            requires
                xr == den * sr,
                yr == den * (sa + 1),
                sr * sr <= rr,
                aa < (sa + 1) * (sa + 1),
                a1 == (den * den) * aa,
                b1 == (den * den) * rr,
                den > 0,
        ;
        assert(t * t <= b1 * a1) by (nonlinear_arith)
            requires
                t * t <= a1 * b1,
        ;
        assert(a1 >= 0) by (nonlinear_arith)
            requires
                a1 == (den * den) * aa,
                aa >= 0,
        ;
        lemma_root_difference(b1, a1, t, xr, yr);
    }
    assert((xr - yr) * (xr - yr) <= g2);
    assert(xr - yr == den * (gap - 1)) by (nonlinear_arith)
        requires
            xr == den * hi,
            yr == den * (lo + 1),
            gap == hi - lo,
    ;
    assert(((e * k - 1) * den) * ((e * k - 1) * den) <= (den * (gap - 1)) * (den * (gap - 1)))
        by (nonlinear_arith)
        requires
            1 <= e * k <= gap,
            den > 0,
    ;
}

impl Arc {
    /// Twice the product of the chord and the vector from the middle of the
    /// chord to `p`: positive where `p` lies nearer to `p1` than to `p0`.
    pub open spec fn spec_lean(&self, p: Point) -> int {
        (2 * p.x - self.p0.x - self.p1.x) * (self.p1.x - self.p0.x) + (2 * p.y - self.p0.y
            - self.p1.y) * (self.p1.y - self.p0.y)
    }

    /// How far `p` lies before the line that stands at `p0` at a right angle
    /// to the arc: the first of the two sides of `spec_in_wedge`.
    pub open spec fn spec_wedge_start(&self, p: Point) -> int {
        let cx = self.p1.x - self.p0.x;
        let cy = self.p1.y - self.p0.y;
        let u = CURVATURE_ONE * CURVATURE_ONE - self.d * self.d;
        let v = 2 * (self.d * CURVATURE_ONE);
        (p.x - self.p0.x) * (cx * u + cy * v) + (p.y - self.p0.y) * (cy * u - cx * v)
    }

    /// How far `p` lies beyond the line that stands at `p1` at a right angle
    /// to the arc: the second of the two sides of `spec_in_wedge`.
    pub open spec fn spec_wedge_end(&self, p: Point) -> int {
        let cx = self.p1.x - self.p0.x;
        let cy = self.p1.y - self.p0.y;
        let u = CURVATURE_ONE * CURVATURE_ONE - self.d * self.d;
        let v = 2 * (self.d * CURVATURE_ONE);
        (p.x - self.p1.x) * (cx * u - cy * v) + (p.y - self.p1.y) * (cy * u + cx * v)
    }
}

/// The product of two vectors that are given along the chord `c` and across
/// it: of `e * c + b * r` and `w * m + f * c + g * r`, where `r` is `c`
/// turned by a right angle.
#[verifier::rlimit(50)]
pub proof fn lemma_frame_product(
    e: int,
    b: int,
    w: int,
    f: int,
    g: int,
    cx: int,
    cy: int,
    mx: int,
    my: int,
)
    ensures
        (e * cx + b * cy) * (w * mx + f * cx + g * cy) + (e * cy - b * cx) * (w * my + f * cy - g
            * cx) == (w * e) * (cx * mx + cy * my) + (e * f) * (cx * cx + cy * cy) + (w * b) * (cy
            * mx - cx * my) + (b * g) * (cx * cx + cy * cy),
{
    let ecx = e * cx;
    let ecy = e * cy;
    let bcx = b * cx;
    let bcy = b * cy;
    let wmx = w * mx;
    let wmy = w * my;
    let fcx = f * cx;
    let fcy = f * cy;
    let gcx = g * cx;
    let gcy = g * cy;
    assert((ecx + bcy) * (wmx + fcx + gcy) == ecx * wmx + ecx * fcx + ecx * gcy + bcy * wmx + bcy
        * fcx + bcy * gcy) by (nonlinear_arith);
    assert((ecy - bcx) * (wmy + fcy - gcx) == ecy * wmy + ecy * fcy - ecy * gcx - bcx * wmy - bcx
        * fcy + bcx * gcx) by (nonlinear_arith);
    assert(ecx * wmx == (w * e) * (cx * mx) && ecy * wmy == (w * e) * (cy * my)) by (nonlinear_arith)
        requires
            ecx == e * cx,
            ecy == e * cy,
            wmx == w * mx,
            wmy == w * my,
    ;
    assert(ecx * fcx == (e * f) * (cx * cx) && ecy * fcy == (e * f) * (cy * cy))
        by (nonlinear_arith)
        requires
            ecx == e * cx,
            ecy == e * cy,
            fcx == f * cx,
            fcy == f * cy,
    ;
    assert(ecx * gcy == ecy * gcx) by (nonlinear_arith)
        requires
            ecx == e * cx,
            ecy == e * cy,
            gcx == g * cx,
            gcy == g * cy,
    ;
    assert(bcy * fcx == bcx * fcy) by (nonlinear_arith)
        requires
            bcx == b * cx,
            bcy == b * cy,
            fcx == f * cx,
            fcy == f * cy,
    ;
    assert(bcy * wmx == (w * b) * (cy * mx) && bcx * wmy == (w * b) * (cx * my))
        by (nonlinear_arith)
        requires
            bcx == b * cx,
            bcy == b * cy,
            wmx == w * mx,
            wmy == w * my,
    ;
    assert(bcy * gcy == (b * g) * (cy * cy) && bcx * gcx == (b * g) * (cx * cx))
        by (nonlinear_arith)
        requires
            bcx == b * cx,
            bcy == b * cy,
            gcx == g * cx,
            gcy == g * cy,
    ;
    assert((w * e) * (cx * mx + cy * my) == (w * e) * (cx * mx) + (w * e) * (cy * my) && (e * f)
        * (cx * cx + cy * cy) == (e * f) * (cx * cx) + (e * f) * (cy * cy) && (w * b) * (cy * mx
        - cx * my) == (w * b) * (cy * mx) - (w * b) * (cx * my) && (b * g) * (cx * cx + cy * cy)
        == (b * g) * (cx * cx) + (b * g) * (cy * cy)) by (nonlinear_arith);
}

/// The weights of a point of an arc, as products: with `w` the weight of the
/// point, `ka` its weight along the chord and `kb` its weight towards the
/// apex.
#[verifier::rlimit(50)]
pub proof fn lemma_weight_products(a: int, b: int, n: int)
    ensures
        ({
            let dd: int = 268435456;
            let nn = n * n;
            let g = dd + nn;
            let u = dd - nn;
            let w = (b * b) * dd + (a * a) * nn;
            let ka = (a * b) * g;
            let kb = (n * 16384) * (b * b - a * a);
            &&& w - ka == (b - a) * (b * dd - a * nn)
            &&& w + ka == (b + a) * (b * dd + a * nn)
            &&& (w - ka) * (w + ka) - kb * kb == ((b * b - a * a) * u) * w
            &&& b * b - a * a == (b - a) * (b + a)
        }),
{
    let dd: int = 268435456;
    let nn = n * n;
    let g = dd + nn;
    let u = dd - nn;
    let aa = a * a;
    let bb = b * b;
    let ab = a * b;
    let w = bb * dd + aa * nn;
    let ka = ab * g;
    let nd = n * 16384;
    let f = bb - aa;
    let kb = nd * f;
    lemma_expand(b, -a, b, -a, dd, nn);
    lemma_expand(b, a, b, a, dd, nn);
    assert(b * (-a) == -ab && (-a) * b == -ab && (-a) * (-a) == aa && b * a == ab)
        by (nonlinear_arith)
        requires
            aa == a * a,
            ab == a * b,
    ;
    assert((-ab) * nn == -(ab * nn) && (-ab) * dd == -(ab * dd)) by (nonlinear_arith);
    assert(b - a == b + (-a));
    assert(b * dd - a * nn == b * dd + (-a) * nn) by (nonlinear_arith);
    assert((b - a) * (b * dd - a * nn) == bb * dd - ab * nn - ab * dd + aa * nn);
    assert((b + a) * (b * dd + a * nn) == bb * dd + ab * nn + ab * dd + aa * nn);
    assert(ab * g == ab * dd + ab * nn) by (nonlinear_arith)
        requires
            g == dd + nn,
    ;
    assert((b - a) * (b + a) == bb - aa) by (nonlinear_arith)
        requires
            aa == a * a,
            bb == b * b,
    ;
    // (w - ka) * (w + ka) - kb * kb, with p = bb * dd and q = aa * nn
    let p = bb * dd;
    let q = aa * nn;
    assert((w - ka) * (w + ka) == w * w - ka * ka) by (nonlinear_arith);
    assert(w * w == p * p + 2 * (p * q) + q * q) by (nonlinear_arith)
        requires
            w == p + q,
    ;
    assert(ab * ab == aa * bb) by (nonlinear_arith)
        requires
            aa == a * a,
            bb == b * b,
            ab == a * b,
    ;
    assert(nd * nd == nn * dd) by (nonlinear_arith)
        requires
            nd == n * 16384,
            nn == n * n,
            dd == 268435456,
    ;
    assert(ka * ka == (aa * bb) * (g * g)) by (nonlinear_arith)
        requires
            ka == ab * g,
            ab * ab == aa * bb,
    ;
    assert(kb * kb == (nn * dd) * (f * f)) by (nonlinear_arith)
        requires
            kb == nd * f,
            nd * nd == nn * dd,
    ;
    assert(g * g == dd * dd + 2 * (nn * dd) + nn * nn) by (nonlinear_arith)
        requires
            g == dd + nn,
    ;
    assert(f * f == bb * bb - 2 * (aa * bb) + aa * aa) by (nonlinear_arith)
        requires
            f == bb - aa,
    ;
    let z = nn * dd;
    let y = aa * bb;
    assert(p * p == (bb * bb) * (dd * dd) && q * q == (aa * aa) * (nn * nn) && p * q == y * z)
        by (nonlinear_arith)
        requires
            p == bb * dd,
            q == aa * nn,
            y == aa * bb,
            z == nn * dd,
    ;
    assert(y * (g * g) == y * (dd * dd) + 2 * (y * z) + y * (nn * nn)) by (nonlinear_arith)
        requires
            g * g == dd * dd + 2 * z + nn * nn,
    ;
    assert(z * (f * f) == z * (bb * bb) - 2 * (y * z) + z * (aa * aa)) by (nonlinear_arith)
        requires
            f * f == bb * bb - 2 * y + aa * aa,
    ;
    assert((f * u) * w == (bb * bb) * (dd * dd) - z * (bb * bb) + y * z - y * (nn * nn) - y * (dd
        * dd) + y * z + (aa * aa) * (nn * nn) - z * (aa * aa)) by {
        assert(f * u == bb * dd - bb * nn - aa * dd + aa * nn) by (nonlinear_arith)
            requires
                f == bb - aa,
                u == dd - nn,
        ;
        let t1 = bb * dd;
        let t2 = bb * nn;
        let t3 = aa * dd;
        let t4 = aa * nn;
        assert((t1 - t2 - t3 + t4) * (t1 + t4) == t1 * t1 + t1 * t4 - t2 * t1 - t2 * t4 - t3 * t1
            - t3 * t4 + t4 * t1 + t4 * t4) by (nonlinear_arith);
        assert(t1 * t1 == (bb * bb) * (dd * dd) && t1 * t4 == y * z && t2 * t1 == z * (bb * bb)
            && t2 * t4 == y * (nn * nn) && t3 * t1 == y * (dd * dd) && t3 * t4 == z * (aa * aa)
            && t4 * t4 == (aa * aa) * (nn * nn)) by (nonlinear_arith)
            requires
                t1 == bb * dd,
                t2 == bb * nn,
                t3 == aa * dd,
                t4 == aa * nn,
                y == aa * bb,
                z == nn * dd,
        ;
    }
}

/// A product of two sums, written out.
pub proof fn lemma_expand(a: int, b: int, c: int, d: int, u: int, v: int)
    ensures
        (a + b) * (c * u + d * v) == (a * c) * u + (a * d) * v + (b * c) * u + (b * d) * v,
{
    let cu = c * u;
    let dv = d * v;
    assert((a + b) * (cu + dv) == a * cu + a * dv + b * cu + b * dv) by (nonlinear_arith);
    assert(a * cu == (a * c) * u && b * cu == (b * c) * u) by (nonlinear_arith)
        requires
            cu == c * u,
    ;
    assert(a * dv == (a * d) * v && b * dv == (b * d) * v) by (nonlinear_arith)
        requires
            dv == d * v,
    ;
}

/// The two sides of the wedge, taken together and apart: with `m` twice the
/// vector from the middle of the chord to `p`, and `rho` its product with
/// the chord turned by a right angle.
#[verifier::rlimit(50)]
pub proof fn lemma_wedge_sides(arc: Arc, p: Point)
    ensures
        ({
            let cx = arc.p1.x - arc.p0.x;
            let cy = arc.p1.y - arc.p0.y;
            let mx = 2 * p.x - arc.p0.x - arc.p1.x;
            let my = 2 * p.y - arc.p0.y - arc.p1.y;
            let u = CURVATURE_ONE * CURVATURE_ONE - arc.d * arc.d;
            let v = 2 * (arc.d * CURVATURE_ONE);
            let rho = cy * mx - cx * my;
            let l2 = cx * cx + cy * cy;
            &&& 2 * arc.spec_wedge_end(p) == u * arc.spec_lean(p) - v * rho - u * l2
            &&& 2 * arc.spec_wedge_start(p) == u * arc.spec_lean(p) + v * rho + u * l2
            &&& arc.spec_wedge_start(p) + arc.spec_wedge_end(p) == u * arc.spec_lean(p)
            &&& arc.spec_in_wedge(p) <==> if arc.spec_minor() {
                arc.spec_wedge_start(p) >= 0 && arc.spec_wedge_end(p) <= 0
            } else {
                arc.spec_wedge_start(p) >= 0 || arc.spec_wedge_end(p) <= 0
            }
        }),
{
    let cx = arc.p1.x - arc.p0.x;
    let cy = arc.p1.y - arc.p0.y;
    let mx = 2 * p.x - arc.p0.x - arc.p1.x;
    let my = 2 * p.y - arc.p0.y - arc.p1.y;
    let u = CURVATURE_ONE * CURVATURE_ONE - arc.d * arc.d;
    let v = 2 * (arc.d * CURVATURE_ONE);
    let rho = cy * mx - cx * my;
    let l2 = cx * cx + cy * cy;
    let lean = mx * cx + my * cy;
    assert(arc.spec_lean(p) == lean);
    let ex = p.x - arc.p1.x;
    let ey = p.y - arc.p1.y;
    let sx = p.x - arc.p0.x;
    let sy = p.y - arc.p0.y;
    let t1x = cx * u - cy * v;
    let t1y = cy * u + cx * v;
    let t0x = cx * u + cy * v;
    let t0y = cy * u - cx * v;
    lemma_expand(mx, -cx, cx, -cy, u, v);
    lemma_expand(my, -cy, cy, cx, u, v);
    lemma_expand(mx, cx, cx, cy, u, v);
    lemma_expand(my, cy, cy, -cx, u, v);
    assert(u * lean == (mx * cx) * u + (my * cy) * u && v * rho == (cy * mx) * v - (cx * my) * v
        && u * l2 == (cx * cx) * u + (cy * cy) * u) by (nonlinear_arith)
        requires
            lean == mx * cx + my * cy,
            rho == cy * mx - cx * my,
            l2 == cx * cx + cy * cy,
    ;
    assert((mx * (-cy)) * v == -((cy * mx) * v) && ((-cx) * cx) * u == -((cx * cx) * u) && ((-cx)
        * (-cy)) * v == (cx * cy) * v && (my * cx) * v == (cx * my) * v && ((-cy) * cy) * u == -((
    cy * cy) * u) && ((-cy) * cx) * v == -((cx * cy) * v) && (mx * cy) * v == (cy * mx) * v && (cx
        * cx) * u == (cx * cx) * u && (my * (-cx)) * v == -((cx * my) * v) && (cy * (-cx)) * v
        == -((cx * cy) * v)) by (nonlinear_arith);
    assert(mx - cx == mx + (-cx) && my - cy == my + (-cy));
    assert(t1x == cx * u + (-cy) * v) by (nonlinear_arith)
        requires
            t1x == cx * u - cy * v,
    ;
    assert(t0y == cy * u + (-cx) * v) by (nonlinear_arith)
        requires
            t0y == cy * u - cx * v,
    ;
    assert((mx - cx) * t1x + (my - cy) * t1y == u * lean - v * rho - u * l2);
    assert((mx + cx) * t0x + (my + cy) * t0y == u * lean + v * rho + u * l2);
    assert((mx - cx) * t1x + (my - cy) * t1y == 2 * (ex * t1x + ey * t1y)) by (nonlinear_arith)
        requires
            mx - cx == 2 * ex,
            my - cy == 2 * ey,
    ;
    assert((mx + cx) * t0x + (my + cy) * t0y == 2 * (sx * t0x + sy * t0y)) by (nonlinear_arith)
        requires
            mx + cx == 2 * sx,
            my + cy == 2 * sy,
    ;
}

/// One coordinate of the vectors from a point of the arc to the two ends and
/// to `p`: with `s` the sum and `c` the difference of the coordinates of the
/// ends, `k` the rest of the coordinate of the point, and `w` its weight.
pub proof fn lemma_offsets(w: int, pc: int, c0: int, c1: int, ka: int, c: int, k: int)
    requires
        c == c1 - c0,
    ensures
        ({
            let den = 2 * w;
            let x = (c0 + c1) * w + ka * c + k;
            let m = 2 * pc - c0 - c1;
            &&& (den * pc - x) - den * (pc - c1) == (w - ka) * c - k
            &&& (den * pc - x) + den * (pc - c1) == den * m + (-(w + ka)) * c - k
            &&& (den * pc - x) - den * (pc - c0) == (-(w + ka)) * c - k
            &&& (den * pc - x) + den * (pc - c0) == den * m + (w - ka) * c - k
        }),
{
    let den = 2 * w;
    let m = 2 * pc - c0 - c1;
    assert(den * pc == 2 * (w * pc)) by (nonlinear_arith)
        requires
            den == 2 * w,
    ;
    assert(den * (pc - c1) == 2 * (w * pc) - 2 * (w * c1) && den * (pc - c0) == 2 * (w * pc) - 2
        * (w * c0)) by (nonlinear_arith)
        requires
            den == 2 * w,
    ;
    assert((c0 + c1) * w == w * c0 + w * c1) by (nonlinear_arith);
    assert(den * m == 4 * (w * pc) - 2 * (w * c0) - 2 * (w * c1)) by (nonlinear_arith)
        requires
            den == 2 * w,
            m == 2 * pc - c0 - c1,
    ;
    assert((w - ka) * c == w * c1 - w * c0 - ka * c && (-(w + ka)) * c == w * c0 - w * c1 - ka
        * c) by (nonlinear_arith)
        requires
            c == c1 - c0,
    ;
}

/// The vectors from a point of an arc to the ends of the arc and to `p`,
/// along the chord and across it.
pub proof fn lemma_sample_offsets(arc: Arc, p: Point, a: int, b: int)
    ensures
        ({
            let n = arc.d as int;
            let w = arc.sample_weight(a, b);
            let den = 2 * w;
            let ka = (a * b) * (CURVATURE_ONE * CURVATURE_ONE + n * n);
            let kb = (n * 16384) * (b * b - a * a);
            let cx = arc.p1.x - arc.p0.x;
            let cy = arc.p1.y - arc.p0.y;
            let mx = 2 * p.x - arc.p0.x - arc.p1.x;
            let my = 2 * p.y - arc.p0.y - arc.p1.y;
            let ax = den * p.x - arc.sample_x(a, b);
            let ay = den * p.y - arc.sample_y(a, b);
            &&& ax - den * (p.x - arc.p1.x) == (w - ka) * cx + (-kb) * cy
            &&& ay - den * (p.y - arc.p1.y) == (w - ka) * cy - (-kb) * cx
            &&& ax + den * (p.x - arc.p1.x) == den * mx + (-(w + ka)) * cx + (-kb) * cy
            &&& ay + den * (p.y - arc.p1.y) == den * my + (-(w + ka)) * cy - (-kb) * cx
            &&& ax - den * (p.x - arc.p0.x) == (-(w + ka)) * cx + (-kb) * cy
            &&& ay - den * (p.y - arc.p0.y) == (-(w + ka)) * cy - (-kb) * cx
            &&& ax + den * (p.x - arc.p0.x) == den * mx + (w - ka) * cx + (-kb) * cy
            &&& ay + den * (p.y - arc.p0.y) == den * my + (w - ka) * cy - (-kb) * cx
        }),
{
    let n = arc.d as int;
    let w = arc.sample_weight(a, b);
    let ka = (a * b) * (CURVATURE_ONE * CURVATURE_ONE + n * n);
    let kb = (n * 16384) * (b * b - a * a);
    let cx = arc.p1.x - arc.p0.x;
    let cy = arc.p1.y - arc.p0.y;
    assert((-kb) * cy == -(kb * cy) && (-kb) * cx == -(kb * cx)) by (nonlinear_arith);
    lemma_offsets(w, p.x as int, arc.p0.x as int, arc.p1.x as int, ka, cx, kb * cy);
    lemma_offsets(w, p.y as int, arc.p0.y as int, arc.p1.y as int, ka, cy, -(kb * cx));
}

/// How much farther from `p` a point of the arc is than the end `p1`, in
/// squares: the difference is a product that is not negative where `p` leans
/// to `p1` and lies beyond the wedge there.
#[verifier::rlimit(50)]
pub proof fn lemma_gap_over_end(arc: Arc, p: Point, a: int, b: int)
    ensures
        arc.spec_sample_gap2(p, a, b) - (arc.sample_den(a, b) * arc.sample_den(a, b)) * spec_dist2(
            p,
            arc.p1,
        ) == (arc.sample_weight(a, b) * (b - a)) * ((b - a) * ((CURVATURE_ONE * CURVATURE_ONE
            + arc.d * arc.d) * arc.spec_lean(p)) + 2 * ((a + b) * arc.spec_wedge_end(p))),
{
    let n = arc.d as int;
    let dd: int = 268435456;
    let nn = n * n;
    let g = dd + nn;
    let u = dd - nn;
    let nd = n * 16384;
    let v = 2 * nd;
    let w = arc.sample_weight(a, b);
    let den = 2 * w;
    let ka = (a * b) * g;
    let f = b * b - a * a;
    let kb = nd * f;
    let cx = arc.p1.x - arc.p0.x;
    let cy = arc.p1.y - arc.p0.y;
    let mx = 2 * p.x - arc.p0.x - arc.p1.x;
    let my = 2 * p.y - arc.p0.y - arc.p1.y;
    let x = arc.sample_x(a, b);
    let y = arc.sample_y(a, b);
    let lean = arc.spec_lean(p);
    let wend = arc.spec_wedge_end(p);
    let rho = cy * mx - cx * my;
    let l2 = cx * cx + cy * cy;
    let e = w - ka;
    let ff = w + ka;
    assert(x == (arc.p0.x + arc.p1.x) * w + ka * cx + kb * cy);
    assert(y == (arc.p0.y + arc.p1.y) * w + ka * cy - kb * cx);
    let ax = den * p.x - x;
    let ay = den * p.y - y;
    let bx = den * (p.x - arc.p1.x);
    let by = den * (p.y - arc.p1.y);
    // the sum and the difference of the two vectors, along and across the chord
    lemma_sample_offsets(arc, p, a, b);
    assert(ax - bx == e * cx + (-kb) * cy && ay - by == e * cy - (-kb) * cx);
    assert(ax + bx == den * mx + (-ff) * cx + (-kb) * cy && ay + by == den * my + (-ff) * cy - (
    -kb) * cx);
    assert(ax * ax - bx * bx == (ax - bx) * (ax + bx) && ay * ay - by * by == (ay - by) * (ay
        + by)) by (nonlinear_arith);
    assert(bx * bx + by * by == (den * den) * spec_dist2(p, arc.p1)) by (nonlinear_arith)
        requires
            bx == den * (p.x - arc.p1.x),
            by == den * (p.y - arc.p1.y),
            spec_dist2(p, arc.p1) == (p.x - arc.p1.x) * (p.x - arc.p1.x) + (p.y - arc.p1.y) * (p.y
                - arc.p1.y),
    ;
    lemma_frame_product(e, -kb, den, -ff, -kb, cx, cy, mx, my);
    let diff = arc.spec_sample_gap2(p, a, b) - (den * den) * spec_dist2(p, arc.p1);
    assert(arc.spec_sample_gap2(p, a, b) == ax * ax + ay * ay);
    assert(diff == (den * e) * (cx * mx + cy * my) + (e * (-ff)) * l2 + (den * (-kb)) * rho + ((
    -kb) * (-kb)) * l2);
    assert(cx * mx + cy * my == lean) by (nonlinear_arith)
        requires
            lean == mx * cx + my * cy,
    ;
    lemma_weight_products(a, b, n);
    lemma_wedge_sides(arc, p);
    assert(e * ff - kb * kb == (f * u) * w);
    assert((e * (-ff)) * l2 + ((-kb) * (-kb)) * l2 == -(((f * u) * w) * l2)) by (nonlinear_arith)
        requires
            e * ff - kb * kb == (f * u) * w,
    ;
    // everything is a multiple of the weight
    assert((den * e) * lean == w * (2 * (e * lean)) && (den * (-kb)) * rho == -(w * (f * (v
        * rho))) && ((f * u) * w) * l2 == w * (f * (u * l2))) by (nonlinear_arith)
        requires
            den == 2 * w,
            kb == nd * f,
            v == 2 * nd,
    ;
    assert(diff == w * (2 * (e * lean)) - w * (f * (v * rho)) - w * (f * (u * l2)));
    let inner = 2 * (e * lean) - f * (v * rho) - f * (u * l2);
    assert(diff == w * inner) by (nonlinear_arith)
        requires
            diff == w * (2 * (e * lean)) - w * (f * (v * rho)) - w * (f * (u * l2)),
            inner == 2 * (e * lean) - f * (v * rho) - f * (u * l2),
    ;
    // v * rho == u * lean - u * l2 - 2 * wend
    assert(f * (v * rho) + f * (u * l2) == f * (u * lean) - 2 * (f * wend)) by (nonlinear_arith)
        requires
            2 * wend == u * lean - v * rho - u * l2,
    ;
    assert(inner == 2 * (e * lean) - f * (u * lean) + 2 * (f * wend));
    let ba = b - a;
    assert(2 * e - f * u == (ba * ba) * g) by {
        let q = b * dd - a * nn;
        assert(e == ba * q);
        assert(f == ba * (b + a));
        assert((b + a) * u == b * dd - b * nn + a * dd - a * nn) by (nonlinear_arith)
            requires
                u == dd - nn,
        ;
        assert(2 * q - (b + a) * u == ba * g) by (nonlinear_arith)
            requires
                q == b * dd - a * nn,
                (b + a) * u == b * dd - b * nn + a * dd - a * nn,
                g == dd + nn,
                ba == b - a,
        ;
        assert(2 * (ba * q) - (ba * (b + a)) * u == ba * (2 * q - (b + a) * u))
            by (nonlinear_arith);
        assert(ba * (ba * g) == (ba * ba) * g) by (nonlinear_arith);
    }
    assert(2 * (e * lean) - f * (u * lean) == ((ba * ba) * g) * lean) by (nonlinear_arith)
        requires
            2 * e - f * u == (ba * ba) * g,
    ;
    assert(((ba * ba) * g) * lean == ba * (ba * (g * lean)) && f * wend == ba * ((a + b) * wend))
        by (nonlinear_arith)
        requires
            f == ba * (b + a),
    ;
    assert(inner == ba * (ba * (g * lean) + 2 * ((a + b) * wend))) by (nonlinear_arith)
        requires
            inner == ba * (ba * (g * lean)) + 2 * (ba * ((a + b) * wend)),
    ;
    assert(w * (ba * (ba * (g * lean) + 2 * ((a + b) * wend))) == (w * ba) * (ba * (g * lean) + 2
        * ((a + b) * wend))) by (nonlinear_arith);
}

/// How much farther from `p` a point of the arc is than the end `p0`, in
/// squares: the difference is a product that is not negative where `p` leans
/// to `p0` and lies before the wedge there.
#[verifier::rlimit(50)]
pub proof fn lemma_gap_over_start(arc: Arc, p: Point, a: int, b: int)
    ensures
        arc.spec_sample_gap2(p, a, b) - (arc.sample_den(a, b) * arc.sample_den(a, b)) * spec_dist2(
            p,
            arc.p0,
        ) == -((arc.sample_weight(a, b) * (a + b)) * ((a + b) * ((CURVATURE_ONE * CURVATURE_ONE
            + arc.d * arc.d) * arc.spec_lean(p)) + 2 * ((b - a) * arc.spec_wedge_start(p)))),
{
    let n = arc.d as int;
    let dd: int = 268435456;
    let nn = n * n;
    let g = dd + nn;
    let u = dd - nn;
    let nd = n * 16384;
    let v = 2 * nd;
    let w = arc.sample_weight(a, b);
    let den = 2 * w;
    let ka = (a * b) * g;
    let f = b * b - a * a;
    let kb = nd * f;
    let cx = arc.p1.x - arc.p0.x;
    let cy = arc.p1.y - arc.p0.y;
    let mx = 2 * p.x - arc.p0.x - arc.p1.x;
    let my = 2 * p.y - arc.p0.y - arc.p1.y;
    let x = arc.sample_x(a, b);
    let y = arc.sample_y(a, b);
    let lean = arc.spec_lean(p);
    let wstart = arc.spec_wedge_start(p);
    let rho = cy * mx - cx * my;
    let l2 = cx * cx + cy * cy;
    let e = w - ka;
    let ff = w + ka;
    assert(x == (arc.p0.x + arc.p1.x) * w + ka * cx + kb * cy);
    assert(y == (arc.p0.y + arc.p1.y) * w + ka * cy - kb * cx);
    let ax = den * p.x - x;
    let ay = den * p.y - y;
    let bx = den * (p.x - arc.p0.x);
    let by = den * (p.y - arc.p0.y);
    lemma_sample_offsets(arc, p, a, b);
    assert(ax - bx == (-ff) * cx + (-kb) * cy && ay - by == (-ff) * cy - (-kb) * cx);
    assert(ax + bx == den * mx + e * cx + (-kb) * cy && ay + by == den * my + e * cy - (-kb) * cx);
    assert(ax * ax - bx * bx == (ax - bx) * (ax + bx) && ay * ay - by * by == (ay - by) * (ay
        + by)) by (nonlinear_arith);
    assert(bx * bx + by * by == (den * den) * spec_dist2(p, arc.p0)) by (nonlinear_arith)
        requires
            bx == den * (p.x - arc.p0.x),
            by == den * (p.y - arc.p0.y),
            spec_dist2(p, arc.p0) == (p.x - arc.p0.x) * (p.x - arc.p0.x) + (p.y - arc.p0.y) * (p.y
                - arc.p0.y),
    ;
    lemma_frame_product(-ff, -kb, den, e, -kb, cx, cy, mx, my);
    let diff = arc.spec_sample_gap2(p, a, b) - (den * den) * spec_dist2(p, arc.p0);
    assert(arc.spec_sample_gap2(p, a, b) == ax * ax + ay * ay);
    assert(diff == (den * (-ff)) * (cx * mx + cy * my) + ((-ff) * e) * l2 + (den * (-kb)) * rho
        + ((-kb) * (-kb)) * l2);
    assert(cx * mx + cy * my == lean) by (nonlinear_arith)
        requires
            lean == mx * cx + my * cy,
    ;
    lemma_weight_products(a, b, n);
    lemma_wedge_sides(arc, p);
    assert(e * ff - kb * kb == (f * u) * w);
    assert(((-ff) * e) * l2 + ((-kb) * (-kb)) * l2 == -(((f * u) * w) * l2)) by (nonlinear_arith)
        requires
            e * ff - kb * kb == (f * u) * w,
    ;
    assert((den * (-ff)) * lean == -(w * (2 * (ff * lean))) && (den * (-kb)) * rho == -(w * (f * (
    v * rho))) && ((f * u) * w) * l2 == w * (f * (u * l2))) by (nonlinear_arith)
        requires
            den == 2 * w,
            kb == nd * f,
            v == 2 * nd,
    ;
    assert(diff == -(w * (2 * (ff * lean))) - w * (f * (v * rho)) - w * (f * (u * l2)));
    let inner = 2 * (ff * lean) + f * (v * rho) + f * (u * l2);
    assert(diff == -(w * inner)) by (nonlinear_arith)
        requires
            diff == -(w * (2 * (ff * lean))) - w * (f * (v * rho)) - w * (f * (u * l2)),
            inner == 2 * (ff * lean) + f * (v * rho) + f * (u * l2),
    ;
    assert(f * (v * rho) + f * (u * l2) == 2 * (f * wstart) - f * (u * lean)) by (nonlinear_arith)
        requires
            2 * wstart == u * lean + v * rho + u * l2,
    ;
    assert(inner == 2 * (ff * lean) - f * (u * lean) + 2 * (f * wstart));
    let ba = b - a;
    let ab = a + b;
    assert(2 * ff - f * u == (ab * ab) * g) by {
        let q = b * dd + a * nn;
        assert(ff == (b + a) * q);
        assert(f == ba * (b + a));
        assert(ba * u == b * dd - b * nn - a * dd + a * nn) by (nonlinear_arith)
            requires
                u == dd - nn,
                ba == b - a,
        ;
        assert(2 * q - ba * u == ab * g) by (nonlinear_arith)
            requires
                q == b * dd + a * nn,
                ba * u == b * dd - b * nn - a * dd + a * nn,
                g == dd + nn,
                ab == a + b,
        ;
        assert(2 * (ab * q) - (ba * ab) * u == ab * (2 * q - ba * u)) by (nonlinear_arith);
        assert(ab * (ab * g) == (ab * ab) * g) by (nonlinear_arith);
    }
    assert(2 * (ff * lean) - f * (u * lean) == ((ab * ab) * g) * lean) by (nonlinear_arith)
        requires
            2 * ff - f * u == (ab * ab) * g,
    ;
    assert(((ab * ab) * g) * lean == ab * (ab * (g * lean)) && f * wstart == ab * (ba * wstart))
        by (nonlinear_arith)
        requires
            f == ba * ab,
    ;
    assert(inner == ab * (ab * (g * lean) + 2 * (ba * wstart))) by (nonlinear_arith)
        requires
            inner == ab * (ab * (g * lean)) + 2 * (ab * (ba * wstart)),
    ;
    assert(w * (ab * (ab * (g * lean) + 2 * (ba * wstart))) == (w * ab) * (ab * (g * lean) + 2 * (
    ba * wstart))) by (nonlinear_arith);
}

/// Outside the wedge of a curved arc no point of the arc is nearer to `p`
/// than the distance says: none is nearer than the nearer end.
#[verifier::rlimit(50)]
pub proof fn lemma_curved_end_is_least(arc: Arc, p: Point, a: int, b: int)
    requires
        arc.wf(),
        arc.d != 0,
        !arc.spec_in_wedge(p),
        b > 0,
        -b <= a <= b,
    ensures
        (arc.spec_distance(p) * arc.sample_den(a, b)) * (arc.spec_distance(p) * arc.sample_den(
            a,
            b,
        )) <= arc.spec_sample_gap2(p, a, b),
{
    let e = arc.spec_distance(p);
    let n = arc.d as int;
    let g = CURVATURE_ONE * CURVATURE_ONE + n * n;
    let u = CURVATURE_ONE * CURVATURE_ONE - n * n;
    let w = arc.sample_weight(a, b);
    let den = arc.sample_den(a, b);
    let lean = arc.spec_lean(p);
    let wstart = arc.spec_wedge_start(p);
    let wend = arc.spec_wedge_end(p);
    let gap2 = arc.spec_sample_gap2(p, a, b);
    let a2 = spec_dist2(p, arc.p0);
    let b2 = spec_dist2(p, arc.p1);
    lemma_wedge_sides(arc, p);
    lemma_distance_is_rounded_down(arc, p);
    lemma_gap_over_end(arc, p, a, b);
    lemma_gap_over_start(arc, p, a, b);
    crate::extents::lemma_weight_positive(a, b, n);
    assert(w > 0);
    assert(g > 0) by (nonlinear_arith)
        requires
            g == CURVATURE_ONE * CURVATURE_ONE + n * n,
            CURVATURE_ONE == 16384,
    ;
    if arc.spec_minor() {
        assert(u >= 0) by (nonlinear_arith)
            requires
                u == CURVATURE_ONE * CURVATURE_ONE - n * n,
                -16384 <= n <= 16384,
                CURVATURE_ONE == 16384,
        ;
    }
    assert(e * e <= a2 && e * e <= b2);
    // the end to which `p` leans is the nearest point of the arc
    let to_end = if arc.spec_minor() {
        wend > 0 && lean >= 0 || wstart < 0 && lean > 0
    } else {
        lean >= 0
    };
    if to_end {
        assert(wend > 0 && lean >= 0) by (nonlinear_arith)
            requires
                wend > 0 && lean >= 0 || wstart < 0 && lean > 0 && wstart + wend == u * lean && u
                    >= 0,
        ;
        assert((w * (b - a)) * ((b - a) * (g * lean) + 2 * ((a + b) * wend)) >= 0)
            by (nonlinear_arith)
            requires
                w > 0,
                g > 0,
                lean >= 0,
                wend > 0,
                b - a >= 0,
                a + b >= 0,
        ;
        assert(gap2 >= (den * den) * b2);
        assert((e * den) * (e * den) <= (den * den) * b2) by (nonlinear_arith)
            requires
                e * e <= b2,
        ;
    } else {
        assert(wstart < 0 && lean <= 0) by (nonlinear_arith)
            requires
                wstart < 0 && lean < 0 || !(wend > 0 && lean >= 0 || wstart < 0 && lean > 0) && (
                wstart < 0 || wend > 0) && wstart + wend == u * lean && u >= 0,
        ;
        assert((w * (a + b)) * ((a + b) * (g * lean) + 2 * ((b - a) * wstart)) <= 0)
            by (nonlinear_arith)
            requires
                w > 0,
                g > 0,
                lean <= 0,
                wstart < 0,
                b - a >= 0,
                a + b >= 0,
        ;
        assert(gap2 >= (den * den) * a2);
        assert((e * den) * (e * den) <= (den * den) * a2) by (nonlinear_arith)
            requires
                e * e <= a2,
        ;
    }
}

/// On a straight arc the point at the parameter `a / b` is the point of the
/// chord at the fraction `(a + b) / (2 * b)` of the way.
#[verifier::rlimit(50)]
pub proof fn lemma_straight_sample(arc: Arc, p: Point, a: int, b: int)
    requires
        arc.d == 0,
    ensures
        arc.sample_den(a, b) == (b * 268435456) * (2 * b),
        arc.spec_sample_gap2(p, a, b) == ((b * 268435456) * (b * 268435456)) * arc.spec_chord_gap2(
            p,
            a + b,
            2 * b,
        ),
{
    let dd: int = 268435456;
    let bd = b * dd;
    let cx = arc.p1.x - arc.p0.x;
    let cy = arc.p1.y - arc.p0.y;
    let w = arc.sample_weight(a, b);
    let den = arc.sample_den(a, b);
    assert(arc.d * arc.d == 0 && arc.d * CURVATURE_ONE == 0) by (nonlinear_arith)
        requires
            arc.d == 0,
    ;
    assert((a * a) * 0 == 0 && 0 * (b * b - a * a) == 0 && (b * b) * dd == b * bd && (a * b) * dd
        == a * bd) by (nonlinear_arith)
        requires
            bd == b * dd,
    ;
    assert(w == b * bd);
    assert(den == bd * (2 * b)) by (nonlinear_arith)
        requires
            den == 2 * (b * bd),
    ;
    let x = arc.sample_x(a, b);
    let y = arc.sample_y(a, b);
    assert(0 * cy == 0 && 0 * cx == 0);
    assert(x == (arc.p0.x + arc.p1.x) * (b * bd) + (a * bd) * cx);
    assert(y == (arc.p0.y + arc.p1.y) * (b * bd) + (a * bd) * cy);
    let hx = (2 * b) * (p.x - arc.p0.x) - (a + b) * cx;
    let hy = (2 * b) * (p.y - arc.p0.y) - (a + b) * cy;
    lemma_straight_offset(bd, b, a, p.x as int, arc.p0.x as int, arc.p1.x as int);
    lemma_straight_offset(bd, b, a, p.y as int, arc.p0.y as int, arc.p1.y as int);
    assert(den * p.x - x == bd * hx);
    assert(den * p.y - y == bd * hy);
    assert((bd * hx) * (bd * hx) == (bd * bd) * (hx * hx) && (bd * hy) * (bd * hy) == (bd * bd)
        * (hy * hy)) by (nonlinear_arith);
    assert((bd * bd) * (hx * hx + hy * hy) == (bd * bd) * (hx * hx) + (bd * bd) * (hy * hy))
        by (nonlinear_arith);
}

/// One coordinate of the vector from a point of the chord to `p`.
pub proof fn lemma_straight_offset(bd: int, b: int, a: int, pc: int, c0: int, c1: int)
    ensures
        (bd * (2 * b)) * pc - ((c0 + c1) * (b * bd) + (a * bd) * (c1 - c0)) == bd * ((2 * b) * (pc
            - c0) - (a + b) * (c1 - c0)),
{
    let c = c1 - c0;
    let bpc = b * pc;
    let bc0 = b * c0;
    let bc1 = b * c1;
    let ac = a * c;
    assert((bd * (2 * b)) * pc == bd * (2 * bpc)) by (nonlinear_arith)
        requires
            bpc == b * pc,
    ;
    assert((c0 + c1) * (b * bd) == bd * (bc0 + bc1)) by (nonlinear_arith)
        requires
            bc0 == b * c0,
            bc1 == b * c1,
    ;
    assert((a * bd) * c == bd * ac) by (nonlinear_arith)
        requires
            ac == a * c,
    ;
    assert((2 * b) * (pc - c0) - (a + b) * c == 2 * bpc - 2 * bc0 - ac - (bc1 - bc0))
        by (nonlinear_arith)
        requires
            bpc == b * pc,
            bc0 == b * c0,
            bc1 == b * c1,
            ac == a * c,
            c == c1 - c0,
    ;
    assert(bd * (2 * bpc) - bd * (bc0 + bc1) - bd * ac == bd * (2 * bpc - bc0 - bc1 - ac))
        by (nonlinear_arith);
}

/// No point of an arc is nearer to `p` than the distance to the arc says,
/// less one lattice unit: the distance never overstates how far the arc is.
#[verifier::rlimit(50)]
pub proof fn lemma_no_point_is_nearer(arc: Arc, p: Point, a: int, b: int)
    requires
        arc.wf(),
        b > 0,
        -b <= a <= b,
        arc.spec_distance(p) >= 1,
    ensures
        ((arc.spec_distance(p) - 1) * arc.sample_den(a, b)) * ((arc.spec_distance(p) - 1)
            * arc.sample_den(a, b)) <= arc.spec_sample_gap2(p, a, b),
{
    let e = arc.spec_distance(p);
    let den = arc.sample_den(a, b);
    let gap2 = arc.spec_sample_gap2(p, a, b);
    crate::extents::lemma_weight_positive(a, b, arc.d as int);
    assert(den > 0);
    if arc.d == 0 {
        lemma_straight_sample(arc, p, a, b);
        lemma_straight_distance_is_least(arc, p, a + b, 2 * b);
        let bd = b * 268435456;
        let m = 2 * b;
        let cg = arc.spec_chord_gap2(p, a + b, 2 * b);
        assert(((e - 1) * den) * ((e - 1) * den) <= (bd * bd) * cg) by (nonlinear_arith)
            requires
                den == bd * m,
                (e * m) * (e * m) <= cg,
                e >= 1,
                m > 0,
                bd > 0,
        ;
    } else if arc.spec_in_wedge(p) {
        lemma_curved_distance_is_least(arc, p, a, b);
        let k = 4 * abs(arc.d * CURVATURE_ONE);
        assert(k > 0) by (nonlinear_arith)
            requires
                k == 4 * abs(arc.d * CURVATURE_ONE),
                arc.d != 0,
                CURVATURE_ONE == 16384,
        ;
        let big = (e * k - 1) * den;
        let small = (e - 1) * den;
        assert(0 <= k * small <= big) by (nonlinear_arith)
            requires
                big == (e * k - 1) * den,
                small == (e - 1) * den,
                e >= 1,
                k >= 1,
                den > 0,
        ;
        assert((k * k) * (small * small) <= big * big) by (nonlinear_arith)
            requires
                0 <= k * small <= big,
        ;
        assert(small * small <= gap2) by (nonlinear_arith)
            requires
                (k * k) * (small * small) <= (k * k) * gap2,
                k > 0,
        ;
    } else {
        lemma_curved_end_is_least(arc, p, a, b);
        assert(((e - 1) * den) * ((e - 1) * den) <= (e * den) * (e * den)) by (nonlinear_arith)
            requires
                e >= 1,
                den > 0,
        ;
    }
}

/// No point of any arc of an arc list is nearer to `p` than the magnitude of
/// the signed distance says, less one lattice unit.
pub proof fn lemma_no_arc_point_is_nearer(list: Seq<ArcEndpoint>, p: Point, i: int, a: int, b: int)
    requires
        arc_list_wf(list),
        p.wf(),
        0 <= i < spec_arcs(list).len(),
        b > 0,
        -b <= a <= b,
        spec_min_distance(spec_arcs(list), p) >= 1,
    ensures
        abs(spec_sdf(list, p)) == spec_min_distance(spec_arcs(list), p),
        ((spec_min_distance(spec_arcs(list), p) - 1) * spec_arcs(list)[i].sample_den(a, b)) * ((
        spec_min_distance(spec_arcs(list), p) - 1) * spec_arcs(list)[i].sample_den(a, b))
            <= spec_arcs(list)[i].spec_sample_gap2(p, a, b),
{
    let arcs = spec_arcs(list);
    let arc = arcs[i];
    let m = spec_min_distance(arcs, p);
    let e = arc.spec_distance(p);
    let den = arc.sample_den(a, b);
    lemma_arcs_wf(list);
    assert(arc.wf());
    lemma_min_distance_is_least(arcs, p);
    assert(m <= e);
    lemma_no_point_is_nearer(arc, p, a, b);
    crate::extents::lemma_weight_positive(a, b, arc.d as int);
    assert(((m - 1) * den) * ((m - 1) * den) <= ((e - 1) * den) * ((e - 1) * den))
        by (nonlinear_arith)
        requires
            1 <= m <= e,
            den > 0,
    ;
}

} // verus!
