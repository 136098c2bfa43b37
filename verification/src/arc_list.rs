//! Arc lists: the arcs that a sequence of endpoints stands for.
//!
//! An endpoint that starts a contour moves the pen; every other endpoint
//! draws an arc from the point of the endpoint before it. Before the first
//! endpoint the pen stands at the origin. A contour that does not end where
//! it started is closed by a straight arc back to its start.

use vstd::prelude::*;
use crate::geometry::{Arc, ArcEndpoint, Point, arc_list_wf, origin};

verus! {

/// Where the pen stands after the first `i` endpoints of `list`.
pub open spec fn current_point(list: Seq<ArcEndpoint>, i: int) -> Point {
    if i <= 0 {
        origin()
    } else {
        list[i - 1].p
    }
}

/// Where the contour started in which the pen is after the first `i`
/// endpoints of `list`.
pub open spec fn contour_start(list: Seq<ArcEndpoint>, i: int) -> Point
    decreases i,
{
    if i <= 0 {
        origin()
    } else if list[i - 1].is_move_to() {
        list[i - 1].p
    } else {
        contour_start(list, i - 1)
    }
}

/// The straight arc that closes the contour in which the pen is after the
/// first `i` endpoints of `list`.
pub open spec fn closing_arc(list: Seq<ArcEndpoint>, i: int) -> Arc {
    Arc { p0: current_point(list, i), p1: contour_start(list, i), d: 0 }
}

/// The contour in which the pen is after the first `i` endpoints of `list`
/// does not end where it started.
pub open spec fn is_open(list: Seq<ArcEndpoint>, i: int) -> bool {
    current_point(list, i) != contour_start(list, i)
}

/// The arcs of the first `i` endpoints of `list`, the closing arcs of the
/// contours that end among them included.
pub open spec fn spec_arcs_upto(list: Seq<ArcEndpoint>, i: int) -> Seq<Arc>
    decreases i,
{
    if i <= 0 {
        Seq::empty()
    } else {
        let before = spec_arcs_upto(list, i - 1);
        let e = list[i - 1];
        if !e.is_move_to() {
            before.push(Arc { p0: current_point(list, i - 1), p1: e.p, d: e.d })
        } else if is_open(list, i - 1) {
            before.push(closing_arc(list, i - 1))
        } else {
            before
        }
    }
}

/// The arcs of `list`, in order, each contour closed.
pub open spec fn spec_arcs(list: Seq<ArcEndpoint>) -> Seq<Arc> {
    let n = list.len() as int;
    if is_open(list, n) {
        spec_arcs_upto(list, n).push(closing_arc(list, n))
    } else {
        spec_arcs_upto(list, n)
    }
}

/// Every arc of the sequence is well formed.
pub open spec fn arcs_wf(arcs: Seq<Arc>) -> bool {
    forall|i: int| 0 <= i < arcs.len() ==> (#[trigger] arcs[i]).wf()
}

/// The pen never leaves the range of a well-formed list.
pub proof fn lemma_pen_in_range(list: Seq<ArcEndpoint>, i: int)
    requires
        arc_list_wf(list),
        0 <= i <= list.len(),
    ensures
        current_point(list, i).wf(),
        contour_start(list, i).wf(),
    decreases i,
{
    if i > 0 {
        assert(list[i - 1].wf());
        lemma_pen_in_range(list, i - 1);
    }
}

/// The arcs of the first `i` endpoints of a well-formed list are well formed.
pub proof fn lemma_arcs_upto_wf(list: Seq<ArcEndpoint>, i: int)
    requires
        arc_list_wf(list),
        0 <= i <= list.len(),
    ensures
        arcs_wf(spec_arcs_upto(list, i)),
    decreases i,
{
    if i > 0 {
        lemma_arcs_upto_wf(list, i - 1);
        lemma_pen_in_range(list, i - 1);
        assert(list[i - 1].wf());
    }
}

/// The arcs of a well-formed list are well formed.
pub proof fn lemma_arcs_wf(list: Seq<ArcEndpoint>)
    requires
        arc_list_wf(list),
    ensures
        arcs_wf(spec_arcs(list)),
{
    lemma_arcs_upto_wf(list, list.len() as int);
    lemma_pen_in_range(list, list.len() as int);
}

/// In a list that is put together from two, the second of which starts with
/// a contour of its own, the pen stands in the second part as it does in the
/// second list alone.
pub proof fn lemma_pen_of_two(first: Seq<ArcEndpoint>, second: Seq<ArcEndpoint>, i: int)
    requires
        second.len() > 0,
        second[0].is_move_to(),
        1 <= i <= second.len(),
    ensures
        current_point(first + second, first.len() + i) == current_point(second, i),
        contour_start(first + second, first.len() + i) == contour_start(second, i),
    decreases i,
{
    let both = first + second;
    assert(both[first.len() + i - 1] == second[i - 1]);
    if i > 1 {
        lemma_pen_of_two(first, second, i - 1);
    }
}

/// In a list that is put together from two, the pen stands in the first part
/// as it does in the first list alone.
pub proof fn lemma_pen_of_first(first: Seq<ArcEndpoint>, second: Seq<ArcEndpoint>, i: int)
    requires
        0 <= i <= first.len(),
    ensures
        current_point(first + second, i) == current_point(first, i),
        contour_start(first + second, i) == contour_start(first, i),
        spec_arcs_upto(first + second, i) == spec_arcs_upto(first, i),
    decreases i,
{
    if i > 0 {
        assert((first + second)[i - 1] == first[i - 1]);
        lemma_pen_of_first(first, second, i - 1);
    }
}

/// The arcs of the first `i` endpoints of the second of two lists, within the
/// list that is put together from both.
pub proof fn lemma_arcs_upto_of_two(first: Seq<ArcEndpoint>, second: Seq<ArcEndpoint>, i: int)
    requires
        second.len() > 0,
        second[0].is_move_to(),
        1 <= i <= second.len(),
    ensures
        spec_arcs_upto(first + second, first.len() + i) == spec_arcs(first) + spec_arcs_upto(
            second,
            i,
        ),
    decreases i,
{
    let both = first + second;
    let n = first.len() as int;
    assert(both[n + i - 1] == second[i - 1]);
    if i == 1 {
        lemma_pen_of_first(first, second, n);
        assert(spec_arcs_upto(second, 0) == Seq::<Arc>::empty());
        assert(spec_arcs_upto(second, 1) == Seq::<Arc>::empty());
        assert(spec_arcs(first) + Seq::<Arc>::empty() == spec_arcs(first));
    } else {
        lemma_arcs_upto_of_two(first, second, i - 1);
        lemma_pen_of_two(first, second, i - 1);
        let before = spec_arcs_upto(second, i - 1);
        let e = second[i - 1];
        if !e.is_move_to() {
            let a = Arc { p0: current_point(second, i - 1), p1: e.p, d: e.d };
            assert((spec_arcs(first) + before).push(a) == spec_arcs(first) + before.push(a));
        } else if is_open(second, i - 1) {
            let a = closing_arc(second, i - 1);
            assert((spec_arcs(first) + before).push(a) == spec_arcs(first) + before.push(a));
        }
    }
}

/// The arcs of two lists put together are the arcs of the one and then
/// those of the other, where the second list starts with a contour of its
/// own: each list keeps its contours.
pub proof fn lemma_arcs_of_two(first: Seq<ArcEndpoint>, second: Seq<ArcEndpoint>)
    requires
        second.len() > 0 ==> second[0].is_move_to(),
    ensures
        spec_arcs(first + second) == spec_arcs(first) + spec_arcs(second),
{
    if second.len() == 0 {
        assert(first + second == first);
        assert(spec_arcs(second) == Seq::<Arc>::empty());
        assert(spec_arcs(first) + Seq::<Arc>::empty() == spec_arcs(first));
    } else {
        let m = second.len() as int;
        lemma_arcs_upto_of_two(first, second, m);
        lemma_pen_of_two(first, second, m);
        let upto = spec_arcs_upto(second, m);
        if is_open(second, m) {
            let a = closing_arc(second, m);
            assert((spec_arcs(first) + upto).push(a) == spec_arcs(first) + upto.push(a));
        }
    }
}

/// The arcs of `endpoints`, in order, each contour closed.
pub fn arc_list_arcs(endpoints: &[ArcEndpoint]) -> (arcs: Vec<Arc>)
    requires
        arc_list_wf(endpoints@),
    ensures
        arcs@ == spec_arcs(endpoints@),
        arcs_wf(arcs@),
{
    let mut arcs: Vec<Arc> = Vec::new();
    let mut current = Point { x: 0, y: 0 };
    let mut start = Point { x: 0, y: 0 };
    let mut i: usize = 0;
    while i < endpoints.len()
        invariant
            0 <= i <= endpoints.len(),
            arc_list_wf(endpoints@),
            arcs@ == spec_arcs_upto(endpoints@, i as int),
            arcs_wf(arcs@),
            current == current_point(endpoints@, i as int),
            start == contour_start(endpoints@, i as int),
        decreases endpoints.len() - i,
    {
        let e = endpoints[i];
        proof {
            lemma_pen_in_range(endpoints@, i as int);
            assert(endpoints@[i as int].wf());
        }
        if !e.starts_contour() {
            arcs.push(Arc { p0: current, p1: e.p, d: e.d });
        } else {
            if current != start {
                arcs.push(Arc { p0: current, p1: start, d: 0 });
            }
            start = e.p;
        }
        current = e.p;
        i += 1;
    }
    proof {
        lemma_pen_in_range(endpoints@, i as int);
    }
    if current != start {
        arcs.push(Arc { p0: current, p1: start, d: 0 });
    }
    arcs
}

} // verus!
