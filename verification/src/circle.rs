//! The signed distances of a circle.
//!
//! A circle about the origin, given as two half circles, has the distance
//! of its radius from its centre, negative, and from the points at twice
//! its radius along the axes, positive.

use vstd::prelude::*;
use crate::extents::lower;
use crate::arc_list::{contour_start, is_open, spec_arcs, spec_arcs_upto};
use crate::geometry::{Arc, ArcEndpoint, Point, COORD_MAX, CURVATURE_ONE};
use crate::numeric::{abs, is_isqrt, isqrt, lemma_isqrt_exists, lemma_isqrt_is};
use crate::sdf::{spec_inside, spec_min_distance, spec_sdf, spec_sdf_arcs, SDF_INFINITY};

verus! {

/// A half of the circle of the radius `r` about the origin: the lower half,
/// from `(-r, 0)` to `(r, 0)`, or the upper half, from `(r, 0)` to `(-r, 0)`.
pub open spec fn spec_half_circle(r: int, low: bool) -> Arc {
    if low {
        Arc {
            p0: Point { x: (-r) as i64, y: 0 },
            p1: Point { x: r as i64, y: 0 },
            d: CURVATURE_ONE,
        }
    } else {
        Arc {
            p0: Point { x: r as i64, y: 0 },
            p1: Point { x: (-r) as i64, y: 0 },
            d: CURVATURE_ONE,
        }
    }
}

/// The circle of the radius `r` about the origin, counter-clockwise, as
/// its lower and its upper half.
pub open spec fn spec_circle(r: int) -> Seq<Arc> {
    seq![spec_half_circle(r, true), spec_half_circle(r, false)]
}

/// The integer square root of a square.
pub proof fn lemma_isqrt_of_square(s: int)
    requires
        s >= 0,
    ensures
        s * s >= 0,
        isqrt((s * s) as nat) == s,
{
    assert(s * s >= 0 && s * s < (s + 1) * (s + 1)) by (nonlinear_arith)
        requires
            s >= 0,
    ;
    lemma_isqrt_is((s * s) as nat, s as nat);
}

/// The integer square root of a number that is at least a square.
pub proof fn lemma_isqrt_at_least(n: int, s: int)
    requires
        s >= 0,
        n >= s * s,
    ensures
        n >= 0,
        isqrt(n as nat) >= s,
{
    assert(s * s >= 0) by (nonlinear_arith);
    lemma_isqrt_exists(n as nat);
    let t = isqrt(n as nat) as int;
    if t < s {
        assert((t + 1) * (t + 1) <= s * s) by (nonlinear_arith)
            requires
                0 <= t + 1 <= s,
        ;
    }
}

/// What a half circle is to a point `p`: where the wedge is, how far `p`
/// lies from the centre and from the ends, and that the chord, which lies
/// on the x axis, is not crossed.
#[verifier::rlimit(50)]
pub proof fn lemma_half_circle(r: int, low: bool, p: Point)
    requires
        1 <= r <= COORD_MAX,
        p.wf(),
    ensures
        ({
            let a = spec_half_circle(r, low);
            &&& a.wf()
            &&& a.spec_in_wedge(p) == if low {
                p.y <= 0
            } else {
                p.y >= 0
            }
            &&& a.spec_from_center2(p) == (1073741824 * p.x) * (1073741824 * p.x) + (1073741824
                * p.y) * (1073741824 * p.y)
            &&& a.spec_radius2() == (1073741824 * r) * (1073741824 * r)
            &&& 4 * abs(a.d * CURVATURE_ONE) == 1073741824
            &&& a.spec_end_dist2(p) == lower(
                (p.x + r) * (p.x + r) + p.y * p.y,
                (p.x - r) * (p.x - r) + p.y * p.y,
            )
            &&& !a.spec_chord_crossed(p)
            &&& a.spec_cross(p) == if low {
                (2 * r) * p.y
            } else {
                -((2 * r) * p.y)
            }
            &&& a.spec_side(p) == if p.y != 0 {
                a.spec_cross(p)
            } else if low {
                2 * r
            } else {
                -(2 * r)
            }
        }),
{
    let a = spec_half_circle(r, low);
    let cx = a.p1.x - a.p0.x;
    let cy = a.p1.y - a.p0.y;
    assert(cy == 0);
    assert(cx == if low {
        2 * r
    } else {
        -(2 * r)
    });
    assert(a.d * CURVATURE_ONE == 268435456 && a.d * a.d == 268435456 && CURVATURE_ONE
        * CURVATURE_ONE == 268435456) by (nonlinear_arith)
        requires
            a.d == 16384,
            CURVATURE_ONE == 16384,
    ;
    let u = CURVATURE_ONE * CURVATURE_ONE - a.d * a.d;
    let v = 2 * (a.d * CURVATURE_ONE);
    assert(u == 0 && v == 536870912);
    assert(cx * u == 0 && cy * u == 0 && cy * v == 0 && (a.p1.y - a.p0.y) * u == 0 && (a.p1.x
        - a.p0.x) * u == 0) by (nonlinear_arith)
        requires
            u == 0,
            cy == 0,
            cx == a.p1.x - a.p0.x,
            cy == a.p1.y - a.p0.y,
    ;
    // the wedge
    let w = cx * v;
    assert(w == if low {
        1073741824 * r
    } else {
        -(1073741824 * r)
    }) by (nonlinear_arith)
        requires
            w == cx * v,
            v == 536870912,
            cx == if low {
                2 * r
            } else {
                -(2 * r)
            },
    ;
    let start = (p.x - a.p0.x) * (cx * u + cy * v) + (p.y - a.p0.y) * (cy * u - cx * v);
    let end = (p.x - a.p1.x) * (cx * u - cy * v) + (p.y - a.p1.y) * (cy * u + cx * v);
    assert((p.x - a.p0.x) * 0 == 0 && (p.x - a.p1.x) * 0 == 0);
    assert(start == p.y * (-w) && end == p.y * w);
    assert((p.y * w >= 0) == (if low {
        p.y >= 0
    } else {
        p.y <= 0
    }) && (p.y * (-w) >= 0) == (if low {
        p.y <= 0
    } else {
        p.y >= 0
    }) && (p.y * w <= 0) == (if low {
        p.y <= 0
    } else {
        p.y >= 0
    })) by (nonlinear_arith)
        requires
            r >= 1,
            w == if low {
                1073741824 * r
            } else {
                -(1073741824 * r)
            },
    ;
    // the circle
    assert(a.spec_from_center_x(p) == 1073741824 * p.x);
    assert(a.spec_from_center_y(p) == 1073741824 * p.y);
    assert(cx * cx == (2 * r) * (2 * r)) by (nonlinear_arith)
        requires
            cx == 2 * r || cx == -(2 * r),
    ;
    assert(cy * cy == 0);
    assert(a.spec_len2() == (2 * r) * (2 * r));
    assert(((2 * r) * (2 * r)) * (536870912 * 536870912) == (1073741824 * r) * (1073741824 * r))
        by (nonlinear_arith);
    // the ends
    assert((p.y - 0) * (p.y - 0) == p.y * p.y);
    assert((p.x - (-r)) * (p.x - (-r)) == (p.x + r) * (p.x + r));
    // the chord
    assert(cx * (p.y - a.p0.y) == if low {
        (2 * r) * p.y
    } else {
        -((2 * r) * p.y)
    }) by (nonlinear_arith)
        requires
            a.p0.y == 0,
            cx == if low {
                2 * r
            } else {
                -(2 * r)
            },
    ;
    assert(cy * (p.x - a.p0.x) == 0) by (nonlinear_arith)
        requires
            cy == 0,
    ;
    assert(((2 * r) * p.y != 0) == (p.y != 0)) by (nonlinear_arith)
        requires
            r >= 1,
    ;
}

/// The signed distance of a point on an axis at `m` times the radius from
/// the centre of the circle, for `m` zero or two: the radius, negative at
/// the centre.
#[verifier::rlimit(50)]
pub proof fn lemma_circle_at(r: int, p: Point, m: int)
    requires
        1 <= r,
        2 * r <= COORD_MAX,
        m == 0 || m == 2,
        (p.x == 0 && (p.y == m * r || p.y == -(m * r))) || (p.y == 0 && (p.x == m * r || p.x == -(m
            * r))),
    ensures
        spec_min_distance(spec_circle(r), p) == r,
        spec_inside(spec_circle(r), p) == (m == 0),
        spec_sdf_arcs(spec_circle(r), p) == if m == 0 {
            -r
        } else {
            r
        },
{
    let arcs = spec_circle(r);
    let low = spec_half_circle(r, true);
    let high = spec_half_circle(r, false);
    lemma_half_circle(r, true, p);
    lemma_half_circle(r, false, p);
    let k: int = 1073741824;
    // how far the point lies from the centre
    let c = m * r;
    assert((k * p.x) * (k * p.x) + (k * p.y) * (k * p.y) == (k * c) * (k * c)) by (nonlinear_arith)
        requires
            (p.x == 0 && (p.y == c || p.y == -c)) || (p.y == 0 && (p.x == c || p.x == -c)),
    ;
    assert(k * c >= 0 && k * r >= 0) by (nonlinear_arith)
        requires
            k == 1073741824,
            c == m * r,
            m == 0 || m == 2,
            r >= 1,
    ;
    lemma_isqrt_of_square(k * c);
    lemma_isqrt_of_square(k * r);
    assert(k * c == if m == 0 {
        0
    } else {
        2 * (k * r)
    }) by (nonlinear_arith)
        requires
            c == m * r,
            m == 0 || m == 2,
    ;
    assert(abs(k * c - k * r) == k * r);
    assert((k * r) / k == r) by (nonlinear_arith)
        requires
            k == 1073741824,
    ;
    // the distance to each half: the radius in its wedge, and no less
    // outside it
    let from_low = low.spec_distance(p);
    let from_high = high.spec_distance(p);
    assert(low.spec_in_wedge(p) ==> from_low == r);
    assert(high.spec_in_wedge(p) ==> from_high == r);
    assert(low.spec_in_wedge(p) || high.spec_in_wedge(p));
    let e2 = lower((p.x + r) * (p.x + r) + p.y * p.y, (p.x - r) * (p.x - r) + p.y * p.y);
    assert(e2 >= r * r) by (nonlinear_arith)
        requires
            e2 == (p.x + r) * (p.x + r) + p.y * p.y || e2 == (p.x - r) * (p.x - r) + p.y * p.y,
            (p.x == 0) || (p.y == 0 && (p.x == 0 || p.x == 2 * r || p.x == -(2 * r))),
            r >= 1,
    ;
    lemma_isqrt_at_least(e2, r);
    assert(from_low >= r && from_high >= r);
    // the two arcs, one after the other
    assert(arcs.len() == 2);
    assert(arcs.last() == high);
    assert(arcs.drop_last() == seq![low]);
    assert(seq![low].last() == low);
    assert(seq![low].drop_last() == Seq::<Arc>::empty());
    assert(spec_min_distance(Seq::<Arc>::empty(), p) == SDF_INFINITY);
    assert(spec_min_distance(seq![low], p) == lower(SDF_INFINITY as int, from_low));
    assert(spec_min_distance(arcs, p) == lower(lower(SDF_INFINITY as int, from_low), from_high));
    assert(!spec_inside(Seq::<Arc>::empty(), p));
    assert(spec_inside(seq![low], p) == low.spec_flips(p));
    assert(spec_inside(arcs, p) == (low.spec_flips(p) != high.spec_flips(p)));
    // inside the circle the point lies between the upper half and the
    // chord of it, as the rule for a point on the line of a chord has it
    assert((k * r) * (k * r) > 0) by (nonlinear_arith)
        requires
            k == 1073741824,
            r >= 1,
    ;
    if m == 0 {
        assert(low.spec_from_center2(p) == 0 && high.spec_from_center2(p) == 0);
        assert(low.d * low.spec_side(p) > 0 && high.d * high.spec_side(p) < 0)
            by (nonlinear_arith)
            requires
                low.d == 16384,
                high.d == 16384,
                low.spec_side(p) == 2 * r,
                high.spec_side(p) == -(2 * r),
                r >= 1,
        ;
        assert(!low.spec_in_lune(p));
        assert(high.spec_in_lune(p));
    } else {
        assert((2 * (k * r)) * (2 * (k * r)) >= (k * r) * (k * r)) by (nonlinear_arith)
            requires
                k * r >= 0,
        ;
        assert(!low.spec_in_lune(p));
        assert(!high.spec_in_lune(p));
    }
}

/// A circle has the distance of its radius from its centre, negative, and
/// from the points at twice its radius along the axes, positive.
pub proof fn lemma_circle_distances(r: int)
    requires
        1 <= r,
        2 * r <= COORD_MAX,
    ensures
        spec_sdf_arcs(spec_circle(r), Point { x: 0, y: 0 }) == -r,
        spec_sdf_arcs(spec_circle(r), Point { x: (2 * r) as i64, y: 0 }) == r,
        spec_sdf_arcs(spec_circle(r), Point { x: (-(2 * r)) as i64, y: 0 }) == r,
        spec_sdf_arcs(spec_circle(r), Point { x: 0, y: (2 * r) as i64 }) == r,
        spec_sdf_arcs(spec_circle(r), Point { x: 0, y: (-(2 * r)) as i64 }) == r,
{
    assert(0 * r == 0);
    lemma_circle_at(r, Point { x: 0, y: 0 }, 0);
    lemma_circle_at(r, Point { x: (2 * r) as i64, y: 0 }, 2);
    lemma_circle_at(r, Point { x: (-(2 * r)) as i64, y: 0 }, 2);
    lemma_circle_at(r, Point { x: 0, y: (2 * r) as i64 }, 2);
    lemma_circle_at(r, Point { x: 0, y: (-(2 * r)) as i64 }, 2);
}

/// The circle of the radius `r` about the origin as an arc list: one
/// contour that starts at `(-r, 0)`.
pub open spec fn spec_circle_list(r: int) -> Seq<ArcEndpoint> {
    seq![
        ArcEndpoint::spec_move_to(Point { x: (-r) as i64, y: 0 }),
        ArcEndpoint { p: Point { x: r as i64, y: 0 }, d: CURVATURE_ONE },
        ArcEndpoint { p: Point { x: (-r) as i64, y: 0 }, d: CURVATURE_ONE },
    ]
}

/// The same of the circle as an arc list: the signed distance is the
/// radius, negative at the centre and positive at twice the radius along
/// the axes.
pub proof fn lemma_circle_list_distances(r: int)
    requires
        1 <= r,
        2 * r <= COORD_MAX,
    ensures
        spec_arcs(spec_circle_list(r)) == spec_circle(r),
        spec_sdf(spec_circle_list(r), Point { x: 0, y: 0 }) == -r,
        spec_sdf(spec_circle_list(r), Point { x: (2 * r) as i64, y: 0 }) == r,
        spec_sdf(spec_circle_list(r), Point { x: (-(2 * r)) as i64, y: 0 }) == r,
        spec_sdf(spec_circle_list(r), Point { x: 0, y: (2 * r) as i64 }) == r,
        spec_sdf(spec_circle_list(r), Point { x: 0, y: (-(2 * r)) as i64 }) == r,
{
    let list = spec_circle_list(r);
    reveal_with_fuel(spec_arcs_upto, 4);
    reveal_with_fuel(contour_start, 4);
    assert(list[0].is_move_to() && !list[1].is_move_to() && !list[2].is_move_to());
    assert(contour_start(list, 3) == list[0].p);
    assert(!is_open(list, 3));
    assert(!is_open(list, 0));
    assert(spec_arcs_upto(list, 1) == Seq::<Arc>::empty());
    assert(spec_arcs_upto(list, 2) == seq![spec_half_circle(r, true)]);
    assert(spec_arcs_upto(list, 3) == spec_circle(r));
    lemma_circle_distances(r);
}

} // verus!
