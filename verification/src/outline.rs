//! Glyph outlines, and their conversion to arc lists.
//!
//! An outline is a list of contours, each a start point and the segments
//! that follow it. Its coordinates are lattice units; for an outline in 26.6
//! fixed point, as a font engine gives it, `UNITS_PER_PIXEL` of them make a
//! pixel.

use vstd::prelude::*;
use crate::accumulator::{
    ArcAccumulator,
    spec_close_path,
    spec_curve_to,
    spec_endpoints_of,
    spec_pen,
    spec_started,
    spec_conic_to,
    spec_cubic_to,
    spec_line_to,
    spec_move_to,
};
use crate::fitter::{
    Bezier,
    DEFAULT_TOLERANCE,
    MAX_DEPTH,
    lemma_approximate_chain,
    spec_approximate,
    spec_converges,
    spec_pieces,
};
use crate::geometry::{Arc, ArcEndpoint, Point, arc_list_wf};

verus! {

/// The number of lattice units in a pixel of a 26.6 fixed-point outline.
pub const UNITS_PER_PIXEL: i64 = 64;

/// A segment of a contour, from the point where the segment before it ended.
#[derive(Clone, Copy, Debug, PartialEq, Eq)]
pub enum Curve {
    /// A straight line to the point.
    Line(Point),
    /// A quadratic segment: its control point, then its end.
    Bezier2(Point, Point),
    /// A cubic segment: its two control points, then its end.
    Bezier3(Point, Point, Point),
}

/// A contour: where it starts, and its segments in order. It is closed back
/// to its start.
#[derive(Debug)]
pub struct Contour {
    pub start: Point,
    pub curves: Vec<Curve>,
}

/// An outline: its contours in order.
#[derive(Debug)]
pub struct Outline {
    pub contours: Vec<Contour>,
}

impl Curve {
    /// Every point of the segment is in range.
    pub open spec fn wf(&self) -> bool {
        match *self {
            Curve::Line(p) => p.wf(),
            Curve::Bezier2(p1, p2) => p1.wf() && p2.wf(),
            Curve::Bezier3(p1, p2, p3) => p1.wf() && p2.wf() && p3.wf(),
        }
    }
}

impl Contour {
    /// Every point of the contour is in range.
    pub open spec fn wf(&self) -> bool {
        &&& self.start.wf()
        &&& forall|i: int| 0 <= i < self.curves@.len() ==> (#[trigger] self.curves@[i]).wf()
    }
}

impl Outline {
    /// Every point of the outline is in range.
    pub open spec fn wf(&self) -> bool {
        forall|i: int| 0 <= i < self.contours@.len() ==> (#[trigger] self.contours@[i]).wf()
    }
}

/// The list after `curve` has been drawn.
pub open spec fn spec_draw(list: Seq<ArcEndpoint>, curve: Curve, tolerance: int) -> Seq<
    ArcEndpoint,
> {
    match curve {
        Curve::Line(p) => spec_line_to(list, p),
        Curve::Bezier2(p1, p2) => spec_conic_to(list, p1, p2, tolerance),
        Curve::Bezier3(p1, p2, p3) => spec_cubic_to(list, p1, p2, p3, tolerance),
    }
}

/// The list after `curves` have been drawn, in order.
pub open spec fn spec_draw_all(list: Seq<ArcEndpoint>, curves: Seq<Curve>, tolerance: int) -> Seq<
    ArcEndpoint,
>
    decreases curves.len(),
{
    if curves.len() == 0 {
        list
    } else {
        spec_draw(spec_draw_all(list, curves.drop_last(), tolerance), curves.last(), tolerance)
    }
}

/// The list after a contour has been drawn: a move to its start, its
/// segments, and the close of the path.
pub open spec fn spec_draw_contour(
    list: Seq<ArcEndpoint>,
    start: Point,
    curves: Seq<Curve>,
    tolerance: int,
) -> Seq<ArcEndpoint> {
    spec_close_path(spec_draw_all(spec_move_to(list, start), curves, tolerance))
}

/// The list after `contours` have been drawn, in order.
pub open spec fn spec_draw_contours(
    list: Seq<ArcEndpoint>,
    contours: Seq<Contour>,
    tolerance: int,
) -> Seq<ArcEndpoint>
    decreases contours.len(),
{
    if contours.len() == 0 {
        list
    } else {
        spec_draw_contour(
            spec_draw_contours(list, contours.drop_last(), tolerance),
            contours.last().start,
            contours.last().curves@,
            tolerance,
        )
    }
}

/// The arc list of an outline: what an accumulator with the default
/// tolerance collects when the contours are drawn into it in order.
pub open spec fn spec_convert(outline: Outline) -> Seq<ArcEndpoint> {
    spec_draw_contours(Seq::empty(), outline.contours@, DEFAULT_TOLERANCE as int)
}

/// Draws one segment into the accumulator.
pub fn draw_curve(accumulator: &mut ArcAccumulator, curve: &Curve)
    requires
        old(accumulator).wf(),
        curve.wf(),
    ensures
        final(accumulator).wf(),
        final(accumulator)@ == spec_draw(
            old(accumulator)@,
            *curve,
            old(accumulator).spec_tolerance(),
        ),
        final(accumulator).spec_tolerance() == old(accumulator).spec_tolerance(),
{
    match curve {
        Curve::Line(p) => accumulator.line_to(p),
        Curve::Bezier2(p1, p2) => accumulator.conic_to(p1, p2),
        Curve::Bezier3(p1, p2, p3) => accumulator.cubic_to(p1, p2, p3),
    }
}

/// Draws one contour into the accumulator: a move to its start, its
/// segments, and the close of the path.
pub fn draw_contour(accumulator: &mut ArcAccumulator, contour: &Contour)
    requires
        old(accumulator).wf(),
        contour.wf(),
    ensures
        final(accumulator).wf(),
        final(accumulator)@ == spec_draw_contour(
            old(accumulator)@,
            contour.start,
            contour.curves@,
            old(accumulator).spec_tolerance(),
        ),
        final(accumulator).spec_tolerance() == old(accumulator).spec_tolerance(),
{
    let ghost tolerance = accumulator.spec_tolerance();
    accumulator.move_to(&contour.start);
    let ghost moved = accumulator@;
    let mut i: usize = 0;
    while i < contour.curves.len()
        invariant
            0 <= i <= contour.curves.len(),
            contour.wf(),
            accumulator.wf(),
            accumulator.spec_tolerance() == tolerance,
            accumulator@ == spec_draw_all(moved, contour.curves@.subrange(0, i as int), tolerance),
        decreases contour.curves.len() - i,
    {
        proof {
            let upto = contour.curves@.subrange(0, i + 1);
            assert(upto.drop_last() == contour.curves@.subrange(0, i as int));
            assert(upto.last() == contour.curves@[i as int]);
            assert(contour.curves@[i as int].wf());
        }
        draw_curve(accumulator, &contour.curves[i]);
        i += 1;
    }
    assert(contour.curves@.subrange(0, i as int) == contour.curves@);
    accumulator.close_path();
}

/// The arc list of `outline`: each contour in turn is moved to, drawn
/// segment by segment and closed, with the default tolerance.
pub fn convert_outline_to_arcs(outline: &Outline) -> (endpoints: Vec<ArcEndpoint>)
    requires
        outline.wf(),
    ensures
        endpoints@ == spec_convert(*outline),
        arc_list_wf(endpoints@),
        endpoints@.len() > 0 ==> endpoints@[0].is_move_to(),
        endpoints@.len() >= outline.contours@.len(),
{
    let mut accumulator = ArcAccumulator::new();
    let mut i: usize = 0;
    while i < outline.contours.len()
        invariant
            0 <= i <= outline.contours.len(),
            outline.wf(),
            accumulator.wf(),
            accumulator.spec_tolerance() == DEFAULT_TOLERANCE,
            accumulator@ == spec_draw_contours(
                Seq::empty(),
                outline.contours@.subrange(0, i as int),
                DEFAULT_TOLERANCE as int,
            ),
            accumulator@.len() >= i,
        decreases outline.contours.len() - i,
    {
        proof {
            let upto = outline.contours@.subrange(0, i + 1);
            assert(upto.drop_last() == outline.contours@.subrange(0, i as int));
            assert(upto.last() == outline.contours@[i as int]);
            assert(outline.contours@[i as int].wf());
            lemma_draw_contour_grows(
                accumulator@,
                outline.contours@[i as int].start,
                outline.contours@[i as int].curves@,
                DEFAULT_TOLERANCE as int,
            );
        }
        draw_contour(&mut accumulator, &outline.contours[i]);
        i += 1;
    }
    proof {
        assert(outline.contours@.subrange(0, i as int) == outline.contours@);
        accumulator.lemma_wf();
    }
    accumulator.into_endpoints()
}

/// Drawing never takes an endpoint away.
pub proof fn lemma_draw_all_grows(list: Seq<ArcEndpoint>, curves: Seq<Curve>, tolerance: int)
    ensures
        spec_draw_all(list, curves, tolerance).len() >= list.len(),
    decreases curves.len(),
{
    if curves.len() > 0 {
        lemma_draw_all_grows(list, curves.drop_last(), tolerance);
    }
}

/// A contour adds at least the endpoint that starts it.
pub proof fn lemma_draw_contour_grows(
    list: Seq<ArcEndpoint>,
    start: Point,
    curves: Seq<Curve>,
    tolerance: int,
)
    ensures
        spec_draw_contour(list, start, curves, tolerance).len() > list.len(),
{
    lemma_draw_all_grows(spec_move_to(list, start), curves, tolerance);
}

impl Curve {
    /// Where the segment ends.
    pub open spec fn spec_end(&self) -> Point {
        match *self {
            Curve::Line(p) => p,
            Curve::Bezier2(_, p2) => p2,
            Curve::Bezier3(_, _, p3) => p3,
        }
    }

    /// The segment as a curve from `pen`.
    pub open spec fn spec_bezier(&self, pen: Point) -> Bezier {
        match *self {
            Curve::Line(p) => Bezier::spec_line(pen, p),
            Curve::Bezier2(p1, p2) => Bezier::spec_conic(pen, p1, p2),
            Curve::Bezier3(p1, p2, p3) => Bezier::spec_cubic(pen, p1, p2, p3),
        }
    }

    /// The segment is curved: it is fitted.
    pub open spec fn is_curved(&self) -> bool {
        !(*self is Line)
    }
}

/// The list `a` is the start of the list `b`.
pub open spec fn is_prefix(a: Seq<ArcEndpoint>, b: Seq<ArcEndpoint>) -> bool {
    a.len() <= b.len() && a == b.subrange(0, a.len() as int)
}

/// The list as it is when the segment `j` of the contour `ci` of the
/// outline is about to be drawn.
pub open spec fn spec_before(outline: Outline, ci: int, j: int, tolerance: int) -> Seq<ArcEndpoint> {
    spec_draw_all(
        spec_move_to(
            spec_draw_contours(Seq::empty(), outline.contours@.subrange(0, ci), tolerance),
            outline.contours@[ci].start,
        ),
        outline.contours@[ci].curves@.subrange(0, j),
        tolerance,
    )
}

/// To draw a segment adds endpoints and takes none away, and leaves the pen
/// at the end of the segment.
pub proof fn lemma_draw_extends(list: Seq<ArcEndpoint>, curve: Curve, tolerance: int)
    requires
        spec_pen(list).wf(),
        curve.wf(),
    ensures
        is_prefix(list, spec_draw(list, curve, tolerance)),
        spec_draw(list, curve, tolerance).len() > 0,
        spec_pen(spec_draw(list, curve, tolerance)) == curve.spec_end(),
        curve.is_curved() ==> spec_draw(list, curve, tolerance) == spec_curve_to(
            list,
            curve.spec_bezier(spec_pen(list)),
            tolerance,
        ) && curve.spec_bezier(spec_pen(list)).wf() && curve.spec_bezier(spec_pen(list)).p0
            == spec_pen(list),
{
    let started = spec_started(list);
    assert(started.subrange(0, list.len() as int) == list);
    let after = spec_draw(list, curve, tolerance);
    match curve {
        Curve::Line(p) => {
            assert(after == started.push(Arc::spec_line(spec_pen(list), p).spec_endpoint()));
        },
        _ => {
            let b = curve.spec_bezier(spec_pen(list));
            let arcs = spec_approximate(b, tolerance, MAX_DEPTH as nat);
            lemma_approximate_chain(b, tolerance, MAX_DEPTH as nat);
            assert(after == started + spec_endpoints_of(arcs));
            assert(after[after.len() - 1] == spec_endpoints_of(arcs)[arcs.len() - 1]);
        },
    }
    assert(after.subrange(0, list.len() as int) == list);
}

/// To draw the segments of a contour adds endpoints and takes none away:
/// the list after the first `j` of them is the start of the list after all.
pub proof fn lemma_draw_all_extends(
    list: Seq<ArcEndpoint>,
    curves: Seq<Curve>,
    j: int,
    tolerance: int,
)
    requires
        spec_pen(list).wf(),
        forall|i: int| 0 <= i < curves.len() ==> (#[trigger] curves[i]).wf(),
        0 <= j <= curves.len(),
    ensures
        is_prefix(
            spec_draw_all(list, curves.subrange(0, j), tolerance),
            spec_draw_all(list, curves, tolerance),
        ),
        is_prefix(list, spec_draw_all(list, curves, tolerance)),
        spec_pen(spec_draw_all(list, curves, tolerance)).wf(),
        spec_pen(spec_draw_all(list, curves.subrange(0, j), tolerance)).wf(),
    decreases curves.len(),
{
    let all = spec_draw_all(list, curves, tolerance);
    if curves.len() == 0 {
        assert(curves.subrange(0, j) == curves);
        assert(all.subrange(0, list.len() as int) == list);
    } else {
        let rest = curves.drop_last();
        let last = curves.last();
        assert(last.wf());
        assert forall|i: int| 0 <= i < rest.len() implies (#[trigger] rest[i]).wf() by {
            assert(rest[i] == curves[i]);
        }
        let upto = spec_draw_all(list, rest, tolerance);
        if j == curves.len() {
            assert(curves.subrange(0, j) == curves);
            lemma_draw_all_extends(list, rest, 0, tolerance);
        } else {
            lemma_draw_all_extends(list, rest, j, tolerance);
            assert(curves.subrange(0, j) == rest.subrange(0, j));
        }
        lemma_draw_extends(upto, last, tolerance);
        let part = spec_draw_all(list, curves.subrange(0, j), tolerance);
        assert(all.subrange(0, upto.len() as int) == upto);
        assert(all.subrange(0, part.len() as int) == part) by {
            if j < curves.len() {
                assert(part == upto.subrange(0, part.len() as int));
                assert(all.subrange(0, part.len() as int) == upto.subrange(0, part.len() as int));
            } else {
                assert(all.subrange(0, all.len() as int) == all);
            }
        }
        assert(all.subrange(0, list.len() as int) == list) by {
            assert(list == upto.subrange(0, list.len() as int));
            assert(all.subrange(0, list.len() as int) == upto.subrange(0, list.len() as int));
        }
    }
}

/// To draw a contour adds endpoints and takes none away.
pub proof fn lemma_draw_contour_extends(
    list: Seq<ArcEndpoint>,
    contour: Contour,
    j: int,
    tolerance: int,
)
    requires
        contour.wf(),
        0 <= j <= contour.curves@.len(),
    ensures
        is_prefix(list, spec_draw_contour(list, contour.start, contour.curves@, tolerance)),
        is_prefix(
            spec_draw_all(
                spec_move_to(list, contour.start),
                contour.curves@.subrange(0, j),
                tolerance,
            ),
            spec_draw_contour(list, contour.start, contour.curves@, tolerance),
        ),
        spec_pen(
            spec_draw_all(
                spec_move_to(list, contour.start),
                contour.curves@.subrange(0, j),
                tolerance,
            ),
        ).wf(),
{
    let moved = spec_move_to(list, contour.start);
    let drawn = spec_draw_all(moved, contour.curves@, tolerance);
    let closed = spec_draw_contour(list, contour.start, contour.curves@, tolerance);
    let part = spec_draw_all(moved, contour.curves@.subrange(0, j), tolerance);
    assert(spec_pen(moved) == contour.start);
    lemma_draw_all_extends(moved, contour.curves@, j, tolerance);
    assert(closed.subrange(0, drawn.len() as int) == drawn);
    assert(moved.subrange(0, list.len() as int) == list);
    assert(closed.subrange(0, part.len() as int) == part) by {
        assert(part == drawn.subrange(0, part.len() as int));
        assert(closed.subrange(0, part.len() as int) == drawn.subrange(0, part.len() as int));
    }
    assert(closed.subrange(0, list.len() as int) == list) by {
        assert(moved == drawn.subrange(0, moved.len() as int));
        assert(closed.subrange(0, list.len() as int) == moved.subrange(0, list.len() as int));
    }
}

/// To draw the contours of an outline adds endpoints and takes none away:
/// the list after the first `ci` contours, and after a part of the next, is
/// the start of the list after all.
pub proof fn lemma_draw_contours_extends(contours: Seq<Contour>, ci: int, j: int, tolerance: int)
    requires
        forall|i: int| 0 <= i < contours.len() ==> (#[trigger] contours[i]).wf(),
        0 <= ci < contours.len(),
        0 <= j <= contours[ci].curves@.len(),
    ensures
        is_prefix(
            spec_draw_all(
                spec_move_to(
                    spec_draw_contours(Seq::empty(), contours.subrange(0, ci), tolerance),
                    contours[ci].start,
                ),
                contours[ci].curves@.subrange(0, j),
                tolerance,
            ),
            spec_draw_contours(Seq::empty(), contours, tolerance),
        ),
    decreases contours.len(),
{
    let all = spec_draw_contours(Seq::empty(), contours, tolerance);
    let rest = contours.drop_last();
    let last = contours.last();
    let upto = spec_draw_contours(Seq::empty(), rest, tolerance);
    assert(last.wf());
    if ci == contours.len() - 1 {
        assert(contours.subrange(0, ci) == rest);
        lemma_draw_contour_extends(upto, last, j, tolerance);
    } else {
        assert forall|i: int| 0 <= i < rest.len() implies (#[trigger] rest[i]).wf() by {
            assert(rest[i] == contours[i]);
        }
        lemma_draw_contours_extends(rest, ci, j, tolerance);
        assert(contours.subrange(0, ci) == rest.subrange(0, ci));
        assert(rest[ci] == contours[ci]);
        lemma_draw_contour_extends(upto, last, 0, tolerance);
        let part = spec_draw_all(
            spec_move_to(
                spec_draw_contours(Seq::empty(), contours.subrange(0, ci), tolerance),
                contours[ci].start,
            ),
            contours[ci].curves@.subrange(0, j),
            tolerance,
        );
        assert(part == upto.subrange(0, part.len() as int));
        assert(upto == all.subrange(0, upto.len() as int));
        assert(all.subrange(0, part.len() as int) == upto.subrange(0, part.len() as int));
    }
}

/// The arc list of an outline keeps within the tolerance of the outline:
/// where the halving of a curved segment converges, each arc that the
/// segment adds to the list stands for a piece of the segment, and every
/// point of that piece, at whatever parameter `k / n`, lies within the
/// tolerance of the arc; and the arc keeps to the segment as the outline
/// gives it, so that the point of the segment for which that point of the
/// piece stands lies within the tolerance of the arc too. Here the segment
/// is the `j`-th of the contour `ci`, and the arc the `i`-th of its fit.
pub proof fn lemma_convert_within_tolerance(
    outline: Outline,
    ci: int,
    j: int,
    i: int,
    k: int,
    n: int,
)
    requires
        outline.wf(),
        0 <= ci < outline.contours@.len(),
        0 <= j < outline.contours@[ci].curves@.len(),
        outline.contours@[ci].curves@[j].is_curved(),
        ({
            let before = spec_before(outline, ci, j, DEFAULT_TOLERANCE as int);
            let b = outline.contours@[ci].curves@[j].spec_bezier(spec_pen(before));
            &&& spec_converges(b, DEFAULT_TOLERANCE as int, MAX_DEPTH as nat)
            &&& 0 <= i < spec_approximate(b, DEFAULT_TOLERANCE as int, MAX_DEPTH as nat).len()
        }),
        0 <= k <= n,
        n > 0,
    ensures
        ({
            let before = spec_before(outline, ci, j, DEFAULT_TOLERANCE as int);
            let b = outline.contours@[ci].curves@[j].spec_bezier(spec_pen(before));
            let out = spec_convert(outline);
            let at = spec_started(before).len() + i;
            let piece = spec_pieces(b, DEFAULT_TOLERANCE as int, MAX_DEPTH as nat)[i];
            &&& 0 < at < out.len()
            &&& Arc { p0: out[at - 1].p, p1: out[at].p, d: out[at].d }.spec_within(
                piece.spec_point_x(k, n),
                piece.spec_point_y(k, n),
                (n * n) * n,
                DEFAULT_TOLERANCE as int,
            )
            &&& crate::drift::spec_keeps_to_curve(
                b,
                DEFAULT_TOLERANCE as int,
                MAX_DEPTH as nat,
                i,
                Arc { p0: out[at - 1].p, p1: out[at].p, d: out[at].d },
                k,
                n,
            )
        }),
{
    let tol = DEFAULT_TOLERANCE as int;
    let contour = outline.contours@[ci];
    let curve = contour.curves@[j];
    let before = spec_before(outline, ci, j, tol);
    let b = curve.spec_bezier(spec_pen(before));
    let out = spec_convert(outline);
    let at = spec_started(before).len() + i;
    assert(contour.wf());
    assert(curve.wf());
    let drawn = spec_draw_contours(Seq::empty(), outline.contours@.subrange(0, ci), tol);
    lemma_draw_contour_extends(drawn, contour, j, tol);
    lemma_draw_extends(before, curve, tol);
    let after = spec_draw(before, curve, tol);
    assert(contour.curves@.subrange(0, j + 1).drop_last() == contour.curves@.subrange(0, j));
    assert(contour.curves@.subrange(0, j + 1).last() == curve);
    assert(after == spec_before(outline, ci, j + 1, tol));
    lemma_draw_contours_extends(outline.contours@, ci, j + 1, tol);
    assert(after == out.subrange(0, after.len() as int));
    crate::accumulator::lemma_curve_to_within_tolerance(before, b, tol, i, k, n);
    assert(out[at] == after[at]);
    assert(out[at - 1] == after[at - 1]);
}

} // verus!
