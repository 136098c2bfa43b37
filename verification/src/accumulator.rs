//! The path accumulator: a builder that takes the commands of a path and
//! collects the endpoints of the arcs that stand for it.
//!
//! The pen starts at the origin. A command that draws before any `move_to`
//! first starts a contour at the origin. An accumulator belongs to one
//! writer at a time; the list that it hands out is plain data.

use vstd::prelude::*;
use crate::arc_list::{contour_start, current_point, is_open};
use crate::fitter::{
    Bezier,
    DEFAULT_TOLERANCE,
    MAX_DEPTH,
    approximate,
    lemma_approximate_chain,
    spec_approximate,
};
use crate::geometry::{Arc, ArcEndpoint, Point, arc_list_wf, curvature_in_range, origin};

verus! {

/// The list with a contour begun: an empty list gets a first endpoint that
/// starts a contour at the origin.
pub open spec fn spec_started(list: Seq<ArcEndpoint>) -> Seq<ArcEndpoint> {
    if list.len() == 0 {
        seq![ArcEndpoint::spec_move_to(origin())]
    } else {
        list
    }
}

/// Where the pen stands at the end of the list.
pub open spec fn spec_pen(list: Seq<ArcEndpoint>) -> Point {
    current_point(list, list.len() as int)
}

/// The endpoints that close the arcs, in order.
pub open spec fn spec_endpoints_of(arcs: Seq<Arc>) -> Seq<ArcEndpoint> {
    Seq::new(arcs.len(), |i: int| arcs[i].spec_endpoint())
}

/// The list after a `move_to`: a new contour starts at `p`.
pub open spec fn spec_move_to(list: Seq<ArcEndpoint>, p: Point) -> Seq<ArcEndpoint> {
    list.push(ArcEndpoint::spec_move_to(p))
}

/// The list after an `arc_to`: one arc of curvature `d` from the pen to `p`.
pub open spec fn spec_arc_to(list: Seq<ArcEndpoint>, p: Point, d: i64) -> Seq<ArcEndpoint> {
    spec_started(list).push(ArcEndpoint { p, d })
}

/// The list after a `line_to`: one straight arc from the pen to `p`.
pub open spec fn spec_line_to(list: Seq<ArcEndpoint>, p: Point) -> Seq<ArcEndpoint> {
    spec_started(list).push(Arc::spec_line(spec_pen(list), p).spec_endpoint())
}

/// The list after the curve `b` has been drawn with the tolerance `tolerance`.
pub open spec fn spec_curve_to(list: Seq<ArcEndpoint>, b: Bezier, tolerance: int) -> Seq<
    ArcEndpoint,
> {
    spec_started(list) + spec_endpoints_of(spec_approximate(b, tolerance, MAX_DEPTH as nat))
}

/// The list after a `conic_to`: the arcs fitted to the quadratic segment
/// from the pen to `p2` with the control point `p1`.
pub open spec fn spec_conic_to(list: Seq<ArcEndpoint>, p1: Point, p2: Point, tolerance: int) -> Seq<
    ArcEndpoint,
> {
    spec_curve_to(list, Bezier::spec_conic(spec_pen(list), p1, p2), tolerance)
}

/// The list after a `cubic_to`: the arcs fitted to the cubic segment from
/// the pen to `p3` with the control points `p1` and `p2`.
pub open spec fn spec_cubic_to(
    list: Seq<ArcEndpoint>,
    p1: Point,
    p2: Point,
    p3: Point,
    tolerance: int,
) -> Seq<ArcEndpoint> {
    spec_curve_to(list, Bezier::spec_cubic(spec_pen(list), p1, p2, p3), tolerance)
}

/// The list after a `close_path`: where the pen is not at the start of its
/// contour, a straight arc leads it back there.
pub open spec fn spec_close_path(list: Seq<ArcEndpoint>) -> Seq<ArcEndpoint> {
    if is_open(list, list.len() as int) {
        list.push(
            Arc::spec_line(spec_pen(list), contour_start(list, list.len() as int)).spec_endpoint(),
        )
    } else {
        list
    }
}

/// The start of a contour depends only on the endpoints before it.
pub proof fn lemma_contour_start_push(list: Seq<ArcEndpoint>, e: ArcEndpoint, i: int)
    requires
        0 <= i <= list.len(),
    ensures
        contour_start(list.push(e), i) == contour_start(list, i),
    decreases i,
{
    if i > 0 {
        assert(list.push(e)[i - 1] == list[i - 1]);
        lemma_contour_start_push(list, e, i - 1);
    }
}

/// To close a path twice is to close it once: on a closed contour
/// `close_path` changes nothing.
pub proof fn lemma_close_path_twice(list: Seq<ArcEndpoint>)
    ensures
        spec_close_path(spec_close_path(list)) == spec_close_path(list),
        !is_open(spec_close_path(list), spec_close_path(list).len() as int),
{
    let n = list.len() as int;
    if is_open(list, n) {
        let e = Arc::spec_line(spec_pen(list), contour_start(list, n)).spec_endpoint();
        let closed = list.push(e);
        lemma_contour_start_push(list, e, n);
        assert(closed[n] == e);
        assert(!e.is_move_to());
        assert(contour_start(closed, n + 1) == contour_start(closed, n));
    }
}

/// The arcs that a curve adds to a list are the arcs of its fit: the `i`-th
/// of the new endpoints closes the `i`-th arc of the fit, which starts where
/// the endpoint before it stands.
pub proof fn lemma_curve_to_arcs(list: Seq<ArcEndpoint>, b: Bezier, tolerance: int, i: int)
    requires
        b.wf(),
        b.p0 == spec_pen(list),
        0 <= i < spec_approximate(b, tolerance, MAX_DEPTH as nat).len(),
    ensures
        ({
            let after = spec_curve_to(list, b, tolerance);
            let at = spec_started(list).len() + i;
            &&& at < after.len()
            &&& !after[at].is_move_to()
            &&& Arc { p0: current_point(after, at), p1: after[at].p, d: after[at].d }
                == spec_approximate(b, tolerance, MAX_DEPTH as nat)[i]
        }),
{
    let arcs = spec_approximate(b, tolerance, MAX_DEPTH as nat);
    let started = spec_started(list);
    let after = spec_curve_to(list, b, tolerance);
    let at = started.len() + i;
    lemma_approximate_chain(b, tolerance, MAX_DEPTH as nat);
    assert(after == started + spec_endpoints_of(arcs));
    assert(after[at] == spec_endpoints_of(arcs)[i]);
    assert(arcs[i].wf());
    if i == 0 {
        assert(after[at - 1] == started[started.len() - 1]);
        assert(spec_pen(list) == spec_pen(started));
    } else {
        assert(after[at - 1] == spec_endpoints_of(arcs)[i - 1]);
        assert(arcs[i - 1].p1 == arcs[i].p0);
    }
}

/// A curve that is drawn keeps within the tolerance: where the halving of
/// the curve converges, each arc that the curve adds to the list stands for
/// a piece of the curve, and every point of that piece, at whatever
/// parameter `k / n`, lies within `tolerance` of the arc; and the arc keeps
/// to the curve as it was given, so that the point of the curve for which
/// that point of the piece stands lies within `tolerance` of the arc too.
pub proof fn lemma_curve_to_within_tolerance(
    list: Seq<ArcEndpoint>,
    b: Bezier,
    tolerance: int,
    i: int,
    k: int,
    n: int,
)
    requires
        b.wf(),
        b.p0 == spec_pen(list),
        crate::fitter::spec_converges(b, tolerance, MAX_DEPTH as nat),
        0 <= i < spec_approximate(b, tolerance, MAX_DEPTH as nat).len(),
        0 <= k <= n,
        n > 0,
    ensures
        ({
            let after = spec_curve_to(list, b, tolerance);
            let at = spec_started(list).len() + i;
            let piece = crate::fitter::spec_pieces(b, tolerance, MAX_DEPTH as nat)[i];
            &&& at < after.len()
            &&& Arc { p0: current_point(after, at), p1: after[at].p, d: after[at].d }.spec_within(
                piece.spec_point_x(k, n),
                piece.spec_point_y(k, n),
                (n * n) * n,
                tolerance,
            )
            &&& crate::drift::spec_keeps_to_curve(
                b,
                tolerance,
                MAX_DEPTH as nat,
                i,
                Arc { p0: current_point(after, at), p1: after[at].p, d: after[at].d },
                k,
                n,
            )
        }),
{
    lemma_curve_to_arcs(list, b, tolerance, i);
    crate::bound::lemma_fit_within_tolerance(b, tolerance, MAX_DEPTH as nat, i, k, n);
    crate::drift::lemma_chain_keeps_to_curve(b, tolerance, MAX_DEPTH as nat, i, k, n);
}

/// A path accumulator.
pub struct ArcAccumulator {
    tolerance: i64,
    start: Point,
    current: Point,
    endpoints: Vec<ArcEndpoint>,
}

impl View for ArcAccumulator {
    type V = Seq<ArcEndpoint>;

    /// The endpoints collected so far.
    closed spec fn view(&self) -> Seq<ArcEndpoint> {
        self.endpoints@
    }
}

impl ArcAccumulator {
    /// The tolerance with which curves are fitted, in lattice units.
    pub closed spec fn spec_tolerance(&self) -> int {
        self.tolerance as int
    }

    /// The accumulator is consistent: its endpoints are well formed, the
    /// first of them starts a contour, and it knows where its pen is.
    pub closed spec fn wf(&self) -> bool {
        &&& arc_list_wf(self.endpoints@)
        &&& self.current == spec_pen(self.endpoints@)
        &&& self.start == contour_start(self.endpoints@, self.endpoints@.len() as int)
        &&& (self.endpoints@.len() > 0 ==> self.endpoints@[0].is_move_to())
    }

    /// What `wf` says of the endpoints.
    pub proof fn lemma_wf(&self)
        requires
            self.wf(),
        ensures
            arc_list_wf(self@),
            self@.len() > 0 ==> self@[0].is_move_to(),
    {
    }

    /// An accumulator without endpoints, with the default tolerance.
    pub fn new() -> (acc: ArcAccumulator)
        ensures
            acc.wf(),
            acc@ == Seq::<ArcEndpoint>::empty(),
            acc.spec_tolerance() == DEFAULT_TOLERANCE,
    {
        ArcAccumulator {
            tolerance: DEFAULT_TOLERANCE,
            start: Point { x: 0, y: 0 },
            current: Point { x: 0, y: 0 },
            endpoints: Vec::new(),
        }
    }

    /// Forgets the endpoints, puts the pen at the origin and restores the
    /// default tolerance.
    pub fn reset(&mut self)
        ensures
            final(self).wf(),
            final(self)@ == Seq::<ArcEndpoint>::empty(),
            final(self).spec_tolerance() == DEFAULT_TOLERANCE,
    {
        self.tolerance = DEFAULT_TOLERANCE;
        self.start = Point { x: 0, y: 0 };
        self.current = Point { x: 0, y: 0 };
        self.endpoints = Vec::new();
    }

    /// Sets the tolerance with which the curves to come are fitted.
    pub fn set_tolerance(&mut self, tolerance: i64)
        requires
            old(self).wf(),
        ensures
            final(self).wf(),
            final(self)@ == old(self)@,
            final(self).spec_tolerance() == tolerance,
    {
        self.tolerance = tolerance;
    }

    /// The tolerance with which curves are fitted.
    pub fn tolerance(&self) -> (tolerance: i64)
        ensures
            tolerance == self.spec_tolerance(),
    {
        self.tolerance
    }

    /// Where the pen stands.
    pub fn current_point(&self) -> (p: Point)
        requires
            self.wf(),
        ensures
            p == spec_pen(self@),
    {
        self.current
    }

    /// The endpoints collected so far.
    pub fn endpoints(&self) -> (list: &[ArcEndpoint])
        ensures
            list@ == self@,
    {
        self.endpoints.as_slice()
    }

    /// The endpoint that is handed on next where the endpoints are handed
    /// on one by one as they are made, and `sent` of them were handed on
    /// already: the one that follows those, as long as the stream is open
    /// and an endpoint is left.
    pub fn next_to_send(&self, sent: usize, open: bool) -> (next: Option<ArcEndpoint>)
        ensures
            next == if open && sent < self@.len() {
                Some(self@[sent as int])
            } else {
                None::<ArcEndpoint>
            },
    {
        if open && sent < self.endpoints.len() {
            Some(self.endpoints[sent])
        } else {
            None
        }
    }

    /// Gives up the accumulator for the endpoints that it has collected.
    pub fn into_endpoints(self) -> (list: Vec<ArcEndpoint>)
        ensures
            list@ == self@,
    {
        self.endpoints
    }

    fn push_endpoint(&mut self, e: ArcEndpoint)
        requires
            old(self).wf(),
            e.wf(),
            old(self)@.len() == 0 ==> e.is_move_to(),
        ensures
            final(self).wf(),
            final(self)@ == old(self)@.push(e),
            final(self).spec_tolerance() == old(self).spec_tolerance(),
    {
        proof {
            lemma_contour_start_push(self.endpoints@, e, self.endpoints@.len() as int);
        }
        if e.starts_contour() {
            self.start = e.p;
        }
        self.current = e.p;
        self.endpoints.push(e);
    }

    fn start_contour(&mut self)
        requires
            old(self).wf(),
        ensures
            final(self).wf(),
            final(self)@ == spec_started(old(self)@),
            final(self)@.len() > 0,
            spec_pen(final(self)@) == spec_pen(old(self)@),
            final(self).spec_tolerance() == old(self).spec_tolerance(),
    {
        if self.endpoints.len() == 0 {
            let o = Point { x: 0, y: 0 };
            self.push_endpoint(ArcEndpoint::move_to(&o));
            assert(self@ == seq![ArcEndpoint::spec_move_to(origin())]);
        }
    }

    fn push_arcs(&mut self, arcs: &Vec<Arc>)
        requires
            old(self).wf(),
            old(self)@.len() > 0,
            forall|i: int| 0 <= i < arcs@.len() ==> (#[trigger] arcs@[i]).wf(),
        ensures
            final(self).wf(),
            final(self)@ == old(self)@ + spec_endpoints_of(arcs@),
            final(self).spec_tolerance() == old(self).spec_tolerance(),
    {
        let mut i: usize = 0;
        while i < arcs.len()
            invariant
                0 <= i <= arcs.len(),
                self.wf(),
                self@.len() > 0,
                forall|j: int| 0 <= j < arcs@.len() ==> (#[trigger] arcs@[j]).wf(),
                self@ == old(self)@ + spec_endpoints_of(arcs@.subrange(0, i as int)),
                self.spec_tolerance() == old(self).spec_tolerance(),
            decreases arcs.len() - i,
        {
            let e = arcs[i].endpoint();
            proof {
                assert(arcs@[i as int].wf());
                assert(spec_endpoints_of(arcs@.subrange(0, i + 1)) == spec_endpoints_of(
                    arcs@.subrange(0, i as int),
                ).push(e));
            }
            self.push_endpoint(e);
            i += 1;
        }
        assert(arcs@.subrange(0, i as int) == arcs@);
    }

    fn curve_to(&mut self, b: &Bezier)
        requires
            old(self).wf(),
            b.wf(),
        ensures
            final(self).wf(),
            final(self)@ == spec_curve_to(old(self)@, *b, old(self).spec_tolerance()),
            final(self).spec_tolerance() == old(self).spec_tolerance(),
    {
        self.start_contour();
        let mut arcs: Vec<Arc> = Vec::new();
        approximate(b, self.tolerance, MAX_DEPTH, &mut arcs);
        proof {
            lemma_approximate_chain(*b, self.tolerance as int, MAX_DEPTH as nat);
            assert(arcs@ == spec_approximate(*b, self.tolerance as int, MAX_DEPTH as nat));
        }
        self.push_arcs(&arcs);
    }

    /// Starts a new contour at `p`: the list gets an endpoint that marks the
    /// start, and the pen stands at `p`.
    pub fn move_to(&mut self, p: &Point)
        requires
            old(self).wf(),
            p.wf(),
        ensures
            final(self).wf(),
            final(self)@ == spec_move_to(old(self)@, *p),
            final(self).spec_tolerance() == old(self).spec_tolerance(),
    {
        self.push_endpoint(ArcEndpoint::move_to(p));
    }

    /// Draws a straight arc from the pen to `p1`.
    pub fn line_to(&mut self, p1: &Point)
        requires
            old(self).wf(),
            p1.wf(),
        ensures
            final(self).wf(),
            final(self)@ == spec_line_to(old(self)@, *p1),
            final(self).spec_tolerance() == old(self).spec_tolerance(),
    {
        self.start_contour();
        let arc = Arc::from_line(&self.current, p1);
        self.push_endpoint(arc.endpoint());
    }

    /// Draws the quadratic segment from the pen to `p2` with the control
    /// point `p1`, as the arcs that the fitter gives for it.
    pub fn conic_to(&mut self, p1: &Point, p2: &Point)
        requires
            old(self).wf(),
            p1.wf(),
            p2.wf(),
        ensures
            final(self).wf(),
            final(self)@ == spec_conic_to(old(self)@, *p1, *p2, old(self).spec_tolerance()),
            final(self).spec_tolerance() == old(self).spec_tolerance(),
    {
        proof {
            crate::arc_list::lemma_pen_in_range(self.endpoints@, self.endpoints@.len() as int);
        }
        let b = Bezier::conic(&self.current, p1, p2);
        self.curve_to(&b);
    }

    /// Draws the cubic segment from the pen to `p3` with the control points
    /// `p1` and `p2`, as the arcs that the fitter gives for it.
    pub fn cubic_to(&mut self, p1: &Point, p2: &Point, p3: &Point)
        requires
            old(self).wf(),
            p1.wf(),
            p2.wf(),
            p3.wf(),
        ensures
            final(self).wf(),
            final(self)@ == spec_cubic_to(
                old(self)@,
                *p1,
                *p2,
                *p3,
                old(self).spec_tolerance(),
            ),
            final(self).spec_tolerance() == old(self).spec_tolerance(),
    {
        proof {
            crate::arc_list::lemma_pen_in_range(self.endpoints@, self.endpoints@.len() as int);
        }
        let b = Bezier::cubic(&self.current, p1, p2, p3);
        self.curve_to(&b);
    }

    /// Draws the arc of curvature `d` from the pen to `p1` as it is given,
    /// without fitting: any arc whose curvature is in range.
    pub fn arc_to(&mut self, p1: &Point, d: i64)
        requires
            old(self).wf(),
            p1.wf(),
            curvature_in_range(d as int),
        ensures
            final(self).wf(),
            final(self)@ == spec_arc_to(old(self)@, *p1, d),
            final(self).spec_tolerance() == old(self).spec_tolerance(),
    {
        self.start_contour();
        self.push_endpoint(ArcEndpoint { p: *p1, d });
    }

    /// Closes the contour: where the pen is not at the start of the contour,
    /// a straight arc leads it back there. On a closed contour, and before
    /// any contour, nothing happens.
    pub fn close_path(&mut self)
        requires
            old(self).wf(),
        ensures
            final(self).wf(),
            final(self)@ == spec_close_path(old(self)@),
            final(self).spec_tolerance() == old(self).spec_tolerance(),
    {
        if self.current != self.start {
            proof {
                crate::arc_list::lemma_pen_in_range(
                    self.endpoints@,
                    self.endpoints@.len() as int,
                );
            }
            let arc = Arc::from_line(&self.current, &self.start);
            self.push_endpoint(arc.endpoint());
        }
    }
}

} // verus!
