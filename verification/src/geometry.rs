//! Points, arcs, arc endpoints and bounding boxes on the integer lattice.
//!
//! Coordinates are whole numbers of lattice units. A curvature is a whole
//! number of `1 / CURVATURE_ONE`: the value `d` of an arc is the tangent of a
//! quarter of the angle that the arc subtends, so `0` is a straight segment
//! and `CURVATURE_ONE` a half circle; it goes up to `CURVATURE_MAX`. For a
//! positive `d` the arc turns counter-clockwise on its way from `p0` to `p1`
//! (with the y axis pointing up): it bulges to the right of the chord.

use vstd::prelude::*;

verus! {

/// The largest magnitude of a coordinate that the library works on.
pub const COORD_MAX: i64 = 1_048_576;

/// The curvature value that stands for `d = 1`, a half circle.
pub const CURVATURE_ONE: i64 = 16_384;

/// The largest magnitude of a curvature that the library works on: `d = 32`,
/// an arc that leaves out less than a twenty-fifth of its circle.
pub const CURVATURE_MAX: i64 = 524_288;

/// The value in the `d` field of an endpoint that starts a contour: no arc
/// ends there.
pub const MOVE_TO: i64 = 9_223_372_036_854_775_807;

/// A point of the lattice.
#[derive(Clone, Copy, Debug, PartialEq, Eq, Structural)]
pub struct Point {
    pub x: i64,
    pub y: i64,
}

/// An axis-aligned bounding box. It is empty where a minimum lies above its
/// maximum.
#[derive(Clone, Copy, Debug, PartialEq, Eq, Structural)]
pub struct Extents {
    pub min_x: i64,
    pub min_y: i64,
    pub max_x: i64,
    pub max_y: i64,
}

/// A circular arc from `p0` to `p1` with curvature `d`.
#[derive(Clone, Copy, Debug, PartialEq, Eq, Structural)]
pub struct Arc {
    pub p0: Point,
    pub p1: Point,
    pub d: i64,
}

/// The end of an arc, with the curvature `d` of the arc that arrives there
/// from the endpoint before it; or, with `d == MOVE_TO`, the first point of a
/// contour.
#[derive(Clone, Copy, Debug, PartialEq, Eq, Structural)]
pub struct ArcEndpoint {
    pub p: Point,
    pub d: i64,
}

/// Whether `d` is the curvature of an arc that the library holds: between
/// `-CURVATURE_MAX` and `CURVATURE_MAX`. The limit is that of the 128-bit
/// arithmetic, in which the squared distances to the centre of the arc's
/// circle are held on the scale of the curvature.
pub open spec fn curvature_in_range(d: int) -> bool {
    -CURVATURE_MAX <= d <= CURVATURE_MAX
}

/// Whether an arc of the curvature `d` is at most a half circle.
pub open spec fn at_most_half_circle(d: int) -> bool {
    -CURVATURE_ONE <= d <= CURVATURE_ONE
}

/// The origin.
pub open spec fn origin() -> Point {
    Point { x: 0, y: 0 }
}

impl Point {
    /// Both coordinates lie within `COORD_MAX` of zero.
    pub open spec fn wf(&self) -> bool {
        &&& -COORD_MAX <= self.x <= COORD_MAX
        &&& -COORD_MAX <= self.y <= COORD_MAX
    }

    /// The point with the coordinates `x` and `y`.
    pub fn new(x: i64, y: i64) -> (p: Point)
        ensures
            p.x == x,
            p.y == y,
    {
        Point { x, y }
    }

    /// Whether the point lies within the range that the library works on.
    pub fn in_range(&self) -> (b: bool)
        ensures
            b == self.wf(),
    {
        -COORD_MAX <= self.x && self.x <= COORD_MAX && -COORD_MAX <= self.y && self.y
            <= COORD_MAX
    }
}

impl Extents {
    /// The box that holds no point.
    pub open spec fn spec_empty() -> Extents {
        Extents { min_x: i64::MAX, min_y: i64::MAX, max_x: i64::MIN, max_y: i64::MIN }
    }

    /// The box holds no point.
    pub open spec fn is_empty(&self) -> bool {
        self.min_x > self.max_x || self.min_y > self.max_y
    }

    /// The smallest box that holds both `self` and `other`.
    pub open spec fn union(&self, other: Extents) -> Extents {
        Extents {
            min_x: if other.min_x < self.min_x { other.min_x } else { self.min_x },
            min_y: if other.min_y < self.min_y { other.min_y } else { self.min_y },
            max_x: if other.max_x > self.max_x { other.max_x } else { self.max_x },
            max_y: if other.max_y > self.max_y { other.max_y } else { self.max_y },
        }
    }

    /// The point `(x / den, y / den)` lies in the box, borders included.
    pub open spec fn contains_scaled(&self, x: int, y: int, den: int) -> bool {
        &&& self.min_x * den <= x <= self.max_x * den
        &&& self.min_y * den <= y <= self.max_y * den
    }

    /// The box that holds no point.
    pub fn empty() -> (e: Extents)
        ensures
            e == Extents::spec_empty(),
            e.is_empty(),
    {
        Extents { min_x: i64::MAX, min_y: i64::MAX, max_x: i64::MIN, max_y: i64::MIN }
    }

    /// Whether the box holds no point.
    pub fn has_no_point(&self) -> (b: bool)
        ensures
            b == self.is_empty(),
    {
        self.min_x > self.max_x || self.min_y > self.max_y
    }

    /// Grows the box to hold `other` too.
    pub fn extend(&mut self, other: &Extents)
        ensures
            *final(self) == old(self).union(*other),
    {
        if other.min_x < self.min_x {
            self.min_x = other.min_x;
        }
        if other.min_y < self.min_y {
            self.min_y = other.min_y;
        }
        if other.max_x > self.max_x {
            self.max_x = other.max_x;
        }
        if other.max_y > self.max_y {
            self.max_y = other.max_y;
        }
    }
}

impl Arc {
    /// The arc is at most a half circle.
    pub open spec fn spec_minor(&self) -> bool {
        at_most_half_circle(self.d as int)
    }

    /// The endpoints and the curvature are in range.
    pub open spec fn wf(&self) -> bool {
        &&& self.p0.wf()
        &&& self.p1.wf()
        &&& curvature_in_range(self.d as int)
    }

    /// The straight arc from `p0` to `p1`.
    pub open spec fn spec_line(p0: Point, p1: Point) -> Arc {
        Arc { p0, p1, d: 0 }
    }

    /// The straight arc from `p0` to `p1`: its curvature is zero.
    pub fn from_line(p0: &Point, p1: &Point) -> (arc: Arc)
        ensures
            arc == Arc::spec_line(*p0, *p1),
            arc.p0 == *p0,
            arc.p1 == *p1,
            arc.d == 0,
    {
        Arc { p0: *p0, p1: *p1, d: 0 }
    }

    /// The weight of the sample at parameter `a / b`: half the denominator of
    /// its coordinates.
    pub open spec fn sample_weight(&self, a: int, b: int) -> int {
        (b * b) * (CURVATURE_ONE * CURVATURE_ONE) + (a * a) * (self.d * self.d)
    }

    /// The denominator of the coordinates of the sample at parameter `a / b`.
    /// It is positive wherever `b` is not zero.
    pub open spec fn sample_den(&self, a: int, b: int) -> int {
        2 * self.sample_weight(a, b)
    }

    /// The numerator of the x coordinate of the point of the arc at the
    /// parameter `a / b`, which runs from `-1` at `p0` over `0` at the apex of
    /// the arc to `1` at `p1`. The point is
    /// `(sample_x / sample_den, sample_y / sample_den)`; the points at the
    /// rational parameters are dense in the arc.
    pub open spec fn sample_x(&self, a: int, b: int) -> int {
        (self.p0.x + self.p1.x) * self.sample_weight(a, b) + ((a * b) * (CURVATURE_ONE
            * CURVATURE_ONE + self.d * self.d)) * (self.p1.x - self.p0.x) + ((self.d
            * CURVATURE_ONE) * (b * b - a * a)) * (self.p1.y - self.p0.y)
    }

    /// The numerator of the y coordinate of the point of the arc at the
    /// parameter `a / b`.
    pub open spec fn sample_y(&self, a: int, b: int) -> int {
        (self.p0.y + self.p1.y) * self.sample_weight(a, b) + ((a * b) * (CURVATURE_ONE
            * CURVATURE_ONE + self.d * self.d)) * (self.p1.y - self.p0.y) - ((self.d
            * CURVATURE_ONE) * (b * b - a * a)) * (self.p1.x - self.p0.x)
    }

    /// The endpoint that closes this arc in an arc list.
    pub open spec fn spec_endpoint(&self) -> ArcEndpoint {
        ArcEndpoint { p: self.p1, d: self.d }
    }

    /// The endpoint that closes this arc in an arc list.
    pub fn endpoint(&self) -> (e: ArcEndpoint)
        ensures
            e == self.spec_endpoint(),
    {
        ArcEndpoint { p: self.p1, d: self.d }
    }
}

impl ArcEndpoint {
    /// The endpoint starts a contour.
    pub open spec fn is_move_to(&self) -> bool {
        self.d == MOVE_TO
    }

    /// The point is in range, and the endpoint either starts a contour or
    /// carries the curvature of an arc.
    pub open spec fn wf(&self) -> bool {
        &&& self.p.wf()
        &&& (self.is_move_to() || curvature_in_range(self.d as int))
    }

    /// The endpoint that starts a contour at `p`.
    pub open spec fn spec_move_to(p: Point) -> ArcEndpoint {
        ArcEndpoint { p, d: MOVE_TO }
    }

    /// The endpoint that starts a contour at `p`.
    pub fn move_to(p: &Point) -> (e: ArcEndpoint)
        ensures
            e == ArcEndpoint::spec_move_to(*p),
            e.is_move_to(),
    {
        ArcEndpoint { p: *p, d: MOVE_TO }
    }

    /// Whether the endpoint starts a contour.
    pub fn starts_contour(&self) -> (b: bool)
        ensures
            b == self.is_move_to(),
    {
        self.d == MOVE_TO
    }
}

/// Every endpoint of the list is well formed.
pub open spec fn arc_list_wf(list: Seq<ArcEndpoint>) -> bool {
    forall|i: int| 0 <= i < list.len() ==> (#[trigger] list[i]).wf()
}

} // verus!
