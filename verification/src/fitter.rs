//! Fitting arcs to straight, quadratic and cubic segments.
//!
//! A curved segment gets the arc through its two ends whose apex lies as far
//! off the chord as the middle of the curve does. How far the whole curve
//! lies off that arc is bounded from its control points, and a segment whose
//! bound is more than the tolerance is halved and its halves are fitted in
//! turn, down to a fixed depth. The halves are pieces of their own: their
//! control points are those of the exact halves rounded to the lattice, half
//! a unit at most along each axis. What the roundings may have moved a piece
//! off the curve counts against the tolerance: the arc of a piece is taken
//! only where the piece lies closer to it than the tolerance by that drift,
//! so that the tolerance holds between the arc and the curve as it was
//! given. A tolerance that the drift uses up is met by no piece, and the
//! halving then goes on to the depth that is left.

use vstd::prelude::*;
use crate::deviation::lemma_within_monotonic;
use crate::extents::{lower, upper};
use crate::geometry::{Arc, Point, COORD_MAX, CURVATURE_ONE, curvature_in_range};
use crate::numeric::{
    abs,
    ceil_div,
    ceil_sqrt,
    ceil_sqrt_u128,
    clamp,
    div_ceil,
    div_round_away,
    isqrt,
    isqrt_u128,
    lemma_ceil_sqrt_le,
    lemma_mul_bound,
    lemma_round_away_bound,
    lemma_square_bound,
    round_away,
};

verus! {

/// How often a segment is halved at most: a curve yields at most `2^MAX_DEPTH` arcs.
pub const MAX_DEPTH: u32 = 10;

/// The tolerance of a fit where the caller sets none, in lattice units. It
/// leaves room for the drift of the first halvings of a curve.
pub const DEFAULT_TOLERANCE: i64 = 8;

/// A cubic segment from `p0` to `p3`. Its inner control points are held
/// three-fold, `q1 = 3 * c1` and `q2 = 3 * c2`, which lets a quadratic
/// segment be held exactly.
#[derive(Clone, Copy, Debug, PartialEq, Eq, Structural)]
pub struct Bezier {
    pub p0: Point,
    pub q1: Point,
    pub q2: Point,
    pub p3: Point,
}

impl Bezier {
    /// The ends are in range, and the inner control points within three times
    /// the range.
    pub open spec fn wf(&self) -> bool {
        &&& self.p0.wf()
        &&& self.p3.wf()
        &&& -3 * COORD_MAX <= self.q1.x <= 3 * COORD_MAX
        &&& -3 * COORD_MAX <= self.q1.y <= 3 * COORD_MAX
        &&& -3 * COORD_MAX <= self.q2.x <= 3 * COORD_MAX
        &&& -3 * COORD_MAX <= self.q2.y <= 3 * COORD_MAX
    }

    /// The straight segment from `p0` to `p1`, with its control points at the
    /// thirds of the way.
    pub open spec fn spec_line(p0: Point, p1: Point) -> Bezier {
        Bezier {
            p0,
            q1: Point { x: (2 * p0.x + p1.x) as i64, y: (2 * p0.y + p1.y) as i64 },
            q2: Point { x: (p0.x + 2 * p1.x) as i64, y: (p0.y + 2 * p1.y) as i64 },
            p3: p1,
        }
    }

    /// The quadratic segment from `p0` to `p2` with the control point `p1`.
    pub open spec fn spec_conic(p0: Point, p1: Point, p2: Point) -> Bezier {
        Bezier {
            p0,
            q1: Point { x: (p0.x + 2 * p1.x) as i64, y: (p0.y + 2 * p1.y) as i64 },
            q2: Point { x: (p2.x + 2 * p1.x) as i64, y: (p2.y + 2 * p1.y) as i64 },
            p3: p2,
        }
    }

    /// The cubic segment from `p0` to `p3` with the control points `p1` and `p2`.
    pub open spec fn spec_cubic(p0: Point, p1: Point, p2: Point, p3: Point) -> Bezier {
        Bezier {
            p0,
            q1: Point { x: (3 * p1.x) as i64, y: (3 * p1.y) as i64 },
            q2: Point { x: (3 * p2.x) as i64, y: (3 * p2.y) as i64 },
            p3,
        }
    }

    /// The x coordinate of the curve's point at the parameter `k / n`, times
    /// the cube of `n`.
    pub open spec fn spec_point_x(&self, k: int, n: int) -> int {
        let j = n - k;
        ((j * j) * j) * self.p0.x + ((j * j) * k) * self.q1.x + (j * (k * k)) * self.q2.x + ((k
            * k) * k) * self.p3.x
    }

    /// The y coordinate of the curve's point at the parameter `k / n`, times
    /// the cube of `n`.
    pub open spec fn spec_point_y(&self, k: int, n: int) -> int {
        let j = n - k;
        ((j * j) * j) * self.p0.y + ((j * j) * k) * self.q1.y + (j * (k * k)) * self.q2.y + ((k
            * k) * k) * self.p3.y
    }

    /// The segment run the other way.
    pub open spec fn spec_reversed(&self) -> Bezier {
        Bezier { p0: self.p3, q1: self.q2, q2: self.q1, p3: self.p0 }
    }

    /// The curvature of the fitted arc. With `w` eight times the vector from
    /// the middle of the chord to the middle of the curve, and `c` the chord,
    /// it is the cross product of `w` and `c` over four times the squared
    /// length of `c`, in units of `1 / CURVATURE_ONE`, rounded to the nearest,
    /// halves away from zero, and limited to a half circle; and zero where
    /// the ends coincide.
    #[verifier::opaque]
    pub open spec fn spec_fit_d(&self) -> int {
        let cx = self.p3.x - self.p0.x;
        let cy = self.p3.y - self.p0.y;
        let wx = self.q1.x + self.q2.x - 3 * self.p0.x - 3 * self.p3.x;
        let wy = self.q1.y + self.q2.y - 3 * self.p0.y - 3 * self.p3.y;
        let l2 = cx * cx + cy * cy;
        if l2 == 0 {
            0
        } else {
            clamp(
                round_away(CURVATURE_ONE * (wx * cy - wy * cx), 4 * l2),
                -CURVATURE_ONE as int,
                CURVATURE_ONE as int,
            )
        }
    }

    /// The arc fitted to the segment: it joins the ends of the segment.
    pub open spec fn spec_fit_arc(&self) -> Arc {
        Arc { p0: self.p0, p1: self.p3, d: self.spec_fit_d() as i64 }
    }

    /// How far the control points lie from `p0` along the x axis at most,
    /// in whole lattice units rounded up: no point of the curve lies farther.
    pub open spec fn spec_hull_x(&self) -> int {
        upper(
            upper(
                ceil_div(abs(self.q1.x - 3 * self.p0.x), 3),
                ceil_div(abs(self.q2.x - 3 * self.p0.x), 3),
            ),
            abs(self.p3.x - self.p0.x),
        )
    }

    /// How far the control points lie from `p0` along the y axis at most.
    pub open spec fn spec_hull_y(&self) -> int {
        upper(
            upper(
                ceil_div(abs(self.q1.y - 3 * self.p0.y), 3),
                ceil_div(abs(self.q2.y - 3 * self.p0.y), 3),
            ),
            abs(self.p3.y - self.p0.y),
        )
    }

    /// A bound of the distance from `p0` to every point of the curve.
    pub open spec fn spec_hull_from_start(&self) -> int {
        ceil_sqrt((self.spec_hull_x() * self.spec_hull_x() + self.spec_hull_y()
            * self.spec_hull_y()) as nat) as int
    }

    /// A bound of the distance from one end of the curve to every point of
    /// it: the smaller of the bounds from `p0` and from `p3`, so that it is
    /// the same for the curve run the other way.
    pub open spec fn spec_hull_bound(&self) -> int {
        lower(self.spec_hull_from_start(), self.spec_reversed().spec_hull_from_start())
    }

    /// The two inner control points lie in the wedge of `arc`: then so does
    /// the whole curve.
    pub open spec fn spec_controls_in_wedge(&self, arc: Arc) -> bool {
        arc.spec_scaled_in_wedge(self.q1.x as int, self.q1.y as int, 3)
            && arc.spec_scaled_in_wedge(self.q2.x as int, self.q2.y as int, 3)
    }

    /// A bound of the distance from the line of the chord of `arc` to every
    /// point of the curve: the larger distance of the two inner control
    /// points from that line, rounded up.
    pub open spec fn spec_line_bound(&self, arc: Arc) -> int {
        let c1 = arc.spec_scaled_cross(self.q1.x as int, self.q1.y as int, 3);
        let c2 = arc.spec_scaled_cross(self.q2.x as int, self.q2.y as int, 3);
        ceil_div(ceil_sqrt(ceil_div(upper(c1 * c1, c2 * c2), arc.spec_len2()) as nat) as int, 3)
    }

    /// The x component of the vector from the centre of the circle of `arc`
    /// to the control point `a`, on the scale of that control point.
    pub open spec fn spec_center_x(&self, arc: Arc, a: int) -> int {
        if a == 0 {
            arc.spec_scaled_from_center_x(self.p0.x as int, 1)
        } else if a == 1 {
            arc.spec_scaled_from_center_x(self.q1.x as int, 3)
        } else if a == 2 {
            arc.spec_scaled_from_center_x(self.q2.x as int, 3)
        } else {
            arc.spec_scaled_from_center_x(self.p3.x as int, 1)
        }
    }

    /// The y component of that vector.
    pub open spec fn spec_center_y(&self, arc: Arc, a: int) -> int {
        if a == 0 {
            arc.spec_scaled_from_center_y(self.p0.y as int, 1)
        } else if a == 1 {
            arc.spec_scaled_from_center_y(self.q1.y as int, 3)
        } else if a == 2 {
            arc.spec_scaled_from_center_y(self.q2.y as int, 3)
        } else {
            arc.spec_scaled_from_center_y(self.p3.y as int, 1)
        }
    }

    /// The product of the vectors from the centre of the circle of `arc` to
    /// the control points `a` and `c`, less the squared radius: where `a` is
    /// `c`, how far the control point lies off the circle.
    pub open spec fn spec_power(&self, arc: Arc, a: int, c: int) -> int {
        self.spec_center_x(arc, a) * self.spec_center_x(arc, c) + self.spec_center_y(arc, a)
            * self.spec_center_y(arc, c) - (control_scale(a) * control_scale(c))
            * arc.spec_radius2()
    }

    /// The sum of the powers of the pairs of control points whose weights
    /// have the product `j^(6 - m) * k^m` at the parameter `k / (j + k)`.
    pub open spec fn spec_power_sum(&self, arc: Arc, m: int) -> int {
        if m == 0 {
            self.spec_power(arc, 0, 0)
        } else if m == 1 {
            2 * self.spec_power(arc, 0, 1)
        } else if m == 2 {
            2 * self.spec_power(arc, 0, 2) + self.spec_power(arc, 1, 1)
        } else if m == 3 {
            2 * self.spec_power(arc, 0, 3) + 2 * self.spec_power(arc, 1, 2)
        } else if m == 4 {
            2 * self.spec_power(arc, 1, 3) + self.spec_power(arc, 2, 2)
        } else if m == 5 {
            2 * self.spec_power(arc, 2, 3)
        } else {
            self.spec_power(arc, 3, 3)
        }
    }

    /// A bound from above of how far any point of the curve lies outside the
    /// circle of `arc`, as the square of its distance to the centre less the
    /// square of the radius, on the scale `4 * d * CURVATURE_ONE`: the
    /// largest of the seven sums of powers, each over the number of ways to
    /// choose `m` from six; zero where none is positive.
    pub open spec fn spec_power_high(&self, arc: Arc) -> int {
        largest_share(
            self.spec_power_sum(arc, 0),
            self.spec_power_sum(arc, 1),
            self.spec_power_sum(arc, 2),
            self.spec_power_sum(arc, 3),
            self.spec_power_sum(arc, 4),
            self.spec_power_sum(arc, 5),
            self.spec_power_sum(arc, 6),
        )
    }

    /// The same bound of how far any point of the curve lies inside the
    /// circle of `arc`.
    pub open spec fn spec_power_low(&self, arc: Arc) -> int {
        largest_share(
            -self.spec_power_sum(arc, 0),
            -self.spec_power_sum(arc, 1),
            -self.spec_power_sum(arc, 2),
            -self.spec_power_sum(arc, 3),
            -self.spec_power_sum(arc, 4),
            -self.spec_power_sum(arc, 5),
            -self.spec_power_sum(arc, 6),
        )
    }

    /// The first half of the curve, not rounded, on a lattice eight times
    /// finer than that of the curve.
    pub open spec fn spec_fine_left(&self) -> Bezier {
        Bezier {
            p0: Point { x: (8 * self.p0.x) as i64, y: (8 * self.p0.y) as i64 },
            q1: Point {
                x: (12 * self.p0.x + 4 * self.q1.x) as i64,
                y: (12 * self.p0.y + 4 * self.q1.y) as i64,
            },
            q2: Point {
                x: (6 * self.p0.x + 4 * self.q1.x + 2 * self.q2.x) as i64,
                y: (6 * self.p0.y + 4 * self.q1.y + 2 * self.q2.y) as i64,
            },
            p3: Point {
                x: (self.p0.x + self.q1.x + self.q2.x + self.p3.x) as i64,
                y: (self.p0.y + self.q1.y + self.q2.y + self.p3.y) as i64,
            },
        }
    }

    /// The second half of the curve, not rounded, on that finer lattice.
    pub open spec fn spec_fine_right(&self) -> Bezier {
        Bezier {
            p0: Point {
                x: (self.p0.x + self.q1.x + self.q2.x + self.p3.x) as i64,
                y: (self.p0.y + self.q1.y + self.q2.y + self.p3.y) as i64,
            },
            q1: Point {
                x: (2 * self.q1.x + 4 * self.q2.x + 6 * self.p3.x) as i64,
                y: (2 * self.q1.y + 4 * self.q2.y + 6 * self.p3.y) as i64,
            },
            q2: Point {
                x: (4 * self.q2.x + 12 * self.p3.x) as i64,
                y: (4 * self.q2.y + 12 * self.p3.y) as i64,
            },
            p3: Point { x: (8 * self.p3.x) as i64, y: (8 * self.p3.y) as i64 },
        }
    }

    /// The control points are within the range of a lattice `f` times finer.
    pub open spec fn spec_in_lattice(&self, f: int) -> bool {
        &&& -(f * COORD_MAX) <= self.p0.x <= f * COORD_MAX
        &&& -(f * COORD_MAX) <= self.p0.y <= f * COORD_MAX
        &&& -(f * COORD_MAX) <= self.p3.x <= f * COORD_MAX
        &&& -(f * COORD_MAX) <= self.p3.y <= f * COORD_MAX
        &&& -(3 * (f * COORD_MAX)) <= self.q1.x <= 3 * (f * COORD_MAX)
        &&& -(3 * (f * COORD_MAX)) <= self.q1.y <= 3 * (f * COORD_MAX)
        &&& -(3 * (f * COORD_MAX)) <= self.q2.x <= 3 * (f * COORD_MAX)
        &&& -(3 * (f * COORD_MAX)) <= self.q2.y <= 3 * (f * COORD_MAX)
    }

    /// How far at most any point of the curve lies outside the circle of
    /// `arc`, as `spec_power_high` says it of the two halves of the curve,
    /// each on its own, on the lattice eight times finer: the halves keep
    /// closer to their control points than the curve does.
    pub open spec fn spec_halved_high(&self, arc: Arc) -> int {
        upper(
            self.spec_fine_left().spec_power_high(arc.spec_fine()),
            self.spec_fine_right().spec_power_high(arc.spec_fine()),
        )
    }

    /// How far at most any point of the curve lies inside the circle of
    /// `arc`, as `spec_power_low` says it of the two halves of the curve.
    pub open spec fn spec_halved_low(&self, arc: Arc) -> int {
        upper(
            self.spec_fine_left().spec_power_low(arc.spec_fine()),
            self.spec_fine_right().spec_power_low(arc.spec_fine()),
        )
    }

    /// How far at most any point of the curve lies outside the circle of
    /// `arc`, on the scale `4 * d * CURVATURE_ONE`: what `spec_halved_high`
    /// says of the two halves of the curve, which is what `spec_power_high`
    /// says of its four quarters, brought back from the lattice sixty-four
    /// times finer and rounded up.
    pub open spec fn spec_power_above(&self, arc: Arc) -> int {
        ceil_div(
            upper(
                self.spec_fine_left().spec_halved_high(arc.spec_fine()),
                self.spec_fine_right().spec_halved_high(arc.spec_fine()),
            ),
            4096,
        )
    }

    /// How far at most any point of the curve lies inside the circle of
    /// `arc`, taken over the four quarters of the curve in the same way.
    pub open spec fn spec_power_below(&self, arc: Arc) -> int {
        ceil_div(
            upper(
                self.spec_fine_left().spec_halved_low(arc.spec_fine()),
                self.spec_fine_right().spec_halved_low(arc.spec_fine()),
            ),
            4096,
        )
    }

    /// A bound of the distance from the circle of `arc` to every point of
    /// the curve, in whole lattice units: the larger of the distances by
    /// which the square roots of the squared radius with `spec_power_above`
    /// added and with `spec_power_below` taken off differ from the radius,
    /// the radius taken between the integer square root of its scaled
    /// square and the next whole number.
    pub open spec fn spec_circle_bound(&self, arc: Arc) -> int {
        let rr = arc.spec_radius2();
        let sr = isqrt(rr as nat) as int;
        let high = self.spec_power_above(arc);
        let low = self.spec_power_below(arc);
        let out = ceil_sqrt((rr + high) as nat) - sr;
        let inn = if low > rr {
            sr + 1
        } else {
            sr + 1 - isqrt((rr - low) as nat)
        };
        ceil_div(upper(out, inn), 4 * abs(arc.d * CURVATURE_ONE))
    }

    /// How far `arc` is off the segment: a bound of the distance from the arc
    /// to every point of the curve, the same for the curve and the arc run
    /// the other way. No point of the curve lies farther from an end of the
    /// arc than the control points do; and where the inner control points
    /// lie in the wedge of the arc, none lies farther from the arc than from
    /// its line or circle.
    #[verifier::opaque]
    pub open spec fn spec_deviation(&self, arc: Arc) -> int {
        let hull = self.spec_hull_bound();
        if self.spec_controls_in_wedge(arc) && arc.spec_len2() > 0 {
            lower(
                hull,
                if arc.d == 0 {
                    self.spec_line_bound(arc)
                } else {
                    self.spec_circle_bound(arc)
                },
            )
        } else {
            hull
        }
    }

    /// The point at which the curve is halved: its middle, rounded to the lattice.
    pub open spec fn spec_split_point(&self) -> Point {
        Point {
            x: round_away(self.p0.x + self.q1.x + self.q2.x + self.p3.x, 8) as i64,
            y: round_away(self.p0.y + self.q1.y + self.q2.y + self.p3.y, 8) as i64,
        }
    }

    /// The first half of the curve, its control points rounded to the lattice.
    #[verifier::opaque]
    pub open spec fn spec_left(&self) -> Bezier {
        Bezier {
            p0: self.p0,
            q1: Point {
                x: round_away(3 * self.p0.x + self.q1.x, 2) as i64,
                y: round_away(3 * self.p0.y + self.q1.y, 2) as i64,
            },
            q2: Point {
                x: round_away(3 * self.p0.x + 2 * self.q1.x + self.q2.x, 4) as i64,
                y: round_away(3 * self.p0.y + 2 * self.q1.y + self.q2.y, 4) as i64,
            },
            p3: self.spec_split_point(),
        }
    }

    /// The second half of the curve, its control points rounded to the lattice.
    #[verifier::opaque]
    pub open spec fn spec_right(&self) -> Bezier {
        Bezier {
            p0: self.spec_split_point(),
            q1: Point {
                x: round_away(self.q1.x + 2 * self.q2.x + 3 * self.p3.x, 4) as i64,
                y: round_away(self.q1.y + 2 * self.q2.y + 3 * self.p3.y, 4) as i64,
            },
            q2: Point {
                x: round_away(self.q2.x + 3 * self.p3.x, 2) as i64,
                y: round_away(self.q2.y + 3 * self.p3.y, 2) as i64,
            },
            p3: self.p3,
        }
    }

    /// The fitted arc is taken for a piece that came of `level` halvings of
    /// a curve: no point of the piece lies farther from the arc than
    /// `tolerance` less the drift of the piece off the curve.
    pub open spec fn spec_accepts(&self, tolerance: int, level: nat) -> bool {
        self.spec_deviation(self.spec_fit_arc()) + spec_drift(level) <= tolerance
    }

    /// The straight segment from `p0` to `p1`.
    pub fn line(p0: &Point, p1: &Point) -> (b: Bezier)
        requires
            p0.wf(),
            p1.wf(),
        ensures
            b == Bezier::spec_line(*p0, *p1),
            b.wf(),
    {
        Bezier {
            p0: *p0,
            q1: Point { x: 2 * p0.x + p1.x, y: 2 * p0.y + p1.y },
            q2: Point { x: p0.x + 2 * p1.x, y: p0.y + 2 * p1.y },
            p3: *p1,
        }
    }

    /// The quadratic segment from `p0` to `p2` with the control point `p1`.
    pub fn conic(p0: &Point, p1: &Point, p2: &Point) -> (b: Bezier)
        requires
            p0.wf(),
            p1.wf(),
            p2.wf(),
        ensures
            b == Bezier::spec_conic(*p0, *p1, *p2),
            b.wf(),
    {
        Bezier {
            p0: *p0,
            q1: Point { x: p0.x + 2 * p1.x, y: p0.y + 2 * p1.y },
            q2: Point { x: p2.x + 2 * p1.x, y: p2.y + 2 * p1.y },
            p3: *p2,
        }
    }

    /// The cubic segment from `p0` to `p3` with the control points `p1` and `p2`.
    pub fn cubic(p0: &Point, p1: &Point, p2: &Point, p3: &Point) -> (b: Bezier)
        requires
            p0.wf(),
            p1.wf(),
            p2.wf(),
            p3.wf(),
        ensures
            b == Bezier::spec_cubic(*p0, *p1, *p2, *p3),
            b.wf(),
    {
        Bezier {
            p0: *p0,
            q1: Point { x: 3 * p1.x, y: 3 * p1.y },
            q2: Point { x: 3 * p2.x, y: 3 * p2.y },
            p3: *p3,
        }
    }

    /// The arc fitted to the segment.
    pub fn fit_arc(&self) -> (arc: Arc)
        requires
            self.wf(),
        ensures
            arc == self.spec_fit_arc(),
            arc.wf(),
            arc.spec_minor(),
    {
        proof {
            reveal(Bezier::spec_fit_d);
        }
        let cx: i128 = self.p3.x as i128 - self.p0.x as i128;
        let cy: i128 = self.p3.y as i128 - self.p0.y as i128;
        let wx: i128 = self.q1.x as i128 + self.q2.x as i128 - 3 * (self.p0.x as i128) - 3 * (
        self.p3.x as i128);
        let wy: i128 = self.q1.y as i128 + self.q2.y as i128 - 3 * (self.p0.y as i128) - 3 * (
        self.p3.y as i128);
        proof {
            lemma_square_bound(cx as int, 2097152);
            lemma_square_bound(cy as int, 2097152);
            lemma_mul_bound(wx as int, cy as int, 12582912, 2097152);
            lemma_mul_bound(wy as int, cx as int, 12582912, 2097152);
        }
        let l2: i128 = cx * cx + cy * cy;
        if l2 == 0 {
            return Arc { p0: self.p0, p1: self.p3, d: 0 };
        }
        let s: i128 = wx * cy - wy * cx;
        let r: i128 = div_round_away(16384 * s, 4 * l2);
        let d: i64 = if r < -16384 {
            -16384
        } else if r > 16384 {
            16384
        } else {
            r as i64
        };
        Arc { p0: self.p0, p1: self.p3, d }
    }

    /// The segment run the other way.
    pub fn reversed(&self) -> (b: Bezier)
        ensures
            b == self.spec_reversed(),
    {
        Bezier { p0: self.p3, q1: self.q2, q2: self.q1, p3: self.p0 }
    }

    /// A bound of the distance from one end of the curve to every point of it.
    pub fn hull_bound(&self) -> (e: i64)
        requires
            self.wf(),
        ensures
            e == self.spec_hull_bound(),
            0 <= e <= 4194304,
    {
        let a: i64 = self.hull_from_start();
        let b: i64 = self.reversed().hull_from_start();
        if a < b {
            a
        } else {
            b
        }
    }

    /// A bound of the distance from `p0` to every point of the curve.
    pub fn hull_from_start(&self) -> (e: i64)
        requires
            self.wf(),
        ensures
            e == self.spec_hull_from_start(),
            0 <= e <= 4194304,
    {
        let a1: i128 = div_ceil(abs_i128(self.q1.x as i128 - 3 * (self.p0.x as i128)), 3);
        let a2: i128 = div_ceil(abs_i128(self.q2.x as i128 - 3 * (self.p0.x as i128)), 3);
        let a3: i128 = abs_i128(self.p3.x as i128 - self.p0.x as i128);
        let b1: i128 = div_ceil(abs_i128(self.q1.y as i128 - 3 * (self.p0.y as i128)), 3);
        let b2: i128 = div_ceil(abs_i128(self.q2.y as i128 - 3 * (self.p0.y as i128)), 3);
        let b3: i128 = abs_i128(self.p3.y as i128 - self.p0.y as i128);
        let hx: i128 = max_i128(max_i128(a1, a2), a3);
        let hy: i128 = max_i128(max_i128(b1, b2), b3);
        proof {
            lemma_square_bound(hx as int, 2097152);
            lemma_square_bound(hy as int, 2097152);
            lemma_ceil_sqrt_le((hx * hx + hy * hy) as nat, 4194304);
        }
        ceil_sqrt_u128((hx * hx + hy * hy) as u128) as i64
    }

    /// How far `arc` is off the segment: a bound of the distance from the arc
    /// to every point of the curve.
    pub fn deviation(&self, arc: &Arc) -> (e: i64)
        requires
            self.wf(),
            arc.wf(),
            arc.spec_minor(),
            arc.p0 == self.p0,
            arc.p1 == self.p3,
        ensures
            e == self.spec_deviation(*arc),
            0 <= e <= 4194304,
    {
        proof {
            reveal(Bezier::spec_deviation);
        }
        let hull: i64 = self.hull_bound();
        let l2: i128 = arc.len2();
        let in_wedge: bool = arc.in_wedge_scaled(self.q1.x as i128, self.q1.y as i128, 3)
            && arc.in_wedge_scaled(self.q2.x as i128, self.q2.y as i128, 3);
        if !in_wedge || l2 == 0 {
            return hull;
        }
        let bound: i128 = if arc.d == 0 {
            let c1: i128 = arc.cross_scaled(self.q1.x as i128, self.q1.y as i128, 3);
            let c2: i128 = arc.cross_scaled(self.q2.x as i128, self.q2.y as i128, 3);
            proof {
                lemma_square_bound(c1 as int, 52776558133248);
                lemma_square_bound(c2 as int, 52776558133248);
            }
            let m2: i128 = max_i128(c1 * c1, c2 * c2);
            let q: i128 = div_ceil(m2, l2);
            let r: u128 = ceil_sqrt_u128(q as u128);
            div_ceil(r as i128, 3)
        } else {
            self.circle_bound(arc)
        };
        if bound < hull as i128 {
            bound as i64
        } else {
            hull
        }
    }

    /// The arc fitted to the segment, and how far it is off the segment: no
    /// point of the curve lies farther from the arc.
    pub fn fit(&self) -> (fit: (Arc, i64))
        requires
            self.wf(),
        ensures
            fit.0 == self.spec_fit_arc(),
            fit.1 == self.spec_deviation(fit.0),
            fit.0.p0 == self.p0,
            fit.0.p1 == self.p3,
            fit.0.wf(),
            fit.1 >= 0,
            forall|k: int, n: int|
                0 <= k <= n && n > 0 ==> fit.0.spec_within(
                    #[trigger] self.spec_point_x(k, n),
                    self.spec_point_y(k, n),
                    (n * n) * n,
                    fit.1 as int,
                ),
    {
        let arc = self.fit_arc();
        let e: i64 = self.deviation(&arc);
        proof {
            assert forall|k: int, n: int| 0 <= k <= n && n > 0 implies arc.spec_within(
                #[trigger] self.spec_point_x(k, n),
                self.spec_point_y(k, n),
                (n * n) * n,
                e as int,
            ) by {
                crate::bound::lemma_deviation_bounds_curve(*self, arc, k, n);
            }
        }
        (arc, e)
    }

    /// A bound of the distance from the circle of a curved arc to every
    /// point of the curve, in whole lattice units.
    pub fn circle_bound(&self, arc: &Arc) -> (e: i128)
        requires
            self.wf(),
            arc.wf(),
            arc.spec_minor(),
            arc.d != 0,
            arc.spec_len2() > 0,
        ensures
            e == self.spec_circle_bound(*arc),
            e >= 0,
    {
        let finer = Arc {
            p0: Point { x: 64 * arc.p0.x, y: 64 * arc.p0.y },
            p1: Point { x: 64 * arc.p1.x, y: 64 * arc.p1.y },
            d: arc.d,
        };
        proof {
            assert(finer == arc.spec_fine().spec_fine());
        }
        let (left, right) = self.fine_halves();
        let (lh, ll) = left.halved_range(&finer);
        let (rh, rl) = right.halved_range(&finer);
        let high: i128 = div_ceil(max_i128(lh, rh), 4096);
        let low: i128 = div_ceil(max_i128(ll, rl), 4096);
        let r2: i128 = arc.radius2();
        let sr: i128 = isqrt_u128(r2 as u128) as i128;
        let out: i128 = ceil_sqrt_u128((r2 + high) as u128) as i128 - sr;
        let inn: i128 = if low > r2 {
            sr + 1
        } else {
            let t: i128 = isqrt_u128((r2 - low) as u128) as i128;
            proof {
                if t > sr {
                    assert(t * t >= (sr + 1) * (sr + 1)) by (nonlinear_arith)
                        requires
                            t >= sr + 1,
                            sr >= 0,
                    ;
                }
            }
            sr + 1 - t
        };
        let nd: i128 = (arc.d as i128) * (CURVATURE_ONE as i128);
        proof {
            lemma_mul_bound(arc.d as int, CURVATURE_ONE as int, 16384, 16384);
            assert(nd != 0) by (nonlinear_arith)
                requires
                    nd == arc.d * CURVATURE_ONE,
                    arc.d != 0,
                    CURVATURE_ONE == 16384,
            ;
        }
        div_ceil(max_i128(out, inn), 4 * abs_i128(nd))
    }

    /// How far at most the points of the curve lie outside and inside the
    /// circle of an arc, as `spec_halved_high` and `spec_halved_low` say it.
    /// `finer` is the arc on the lattice eight times finer than that of the
    /// curve.
    pub fn halved_range(&self, finer: &Arc) -> (range: (i128, i128))
        requires
            self.spec_in_lattice(8),
            finer.fine_wf(),
        ensures
            range.0 == upper(
                self.spec_fine_left().spec_power_high(*finer),
                self.spec_fine_right().spec_power_high(*finer),
            ),
            range.1 == upper(
                self.spec_fine_left().spec_power_low(*finer),
                self.spec_fine_right().spec_power_low(*finer),
            ),
            0 <= range.0 <= 0x400_0000_0000_0000_0000_0000_0000_0000,
            0 <= range.1 <= 0x400_0000_0000_0000_0000_0000_0000_0000,
    {
        let (left, right) = self.fine_halves();
        let (lh, ll) = left.power_range(finer);
        let (rh, rl) = right.power_range(finer);
        (max_i128(lh, rh), max_i128(ll, rl))
    }

    /// The two halves of the curve, not rounded, on a lattice eight times
    /// finer.
    pub fn fine_halves(&self) -> (halves: (Bezier, Bezier))
        requires
            self.spec_in_lattice(8),
        ensures
            halves.0 == self.spec_fine_left(),
            halves.1 == self.spec_fine_right(),
            halves.0.spec_in_lattice(64),
            halves.1.spec_in_lattice(64),
            self.wf() ==> halves.0.spec_in_lattice(8) && halves.1.spec_in_lattice(8),
    {
        let m = Point {
            x: self.p0.x + self.q1.x + self.q2.x + self.p3.x,
            y: self.p0.y + self.q1.y + self.q2.y + self.p3.y,
        };
        let left = Bezier {
            p0: Point { x: 8 * self.p0.x, y: 8 * self.p0.y },
            q1: Point { x: 12 * self.p0.x + 4 * self.q1.x, y: 12 * self.p0.y + 4 * self.q1.y },
            q2: Point {
                x: 6 * self.p0.x + 4 * self.q1.x + 2 * self.q2.x,
                y: 6 * self.p0.y + 4 * self.q1.y + 2 * self.q2.y,
            },
            p3: m,
        };
        let right = Bezier {
            p0: m,
            q1: Point {
                x: 2 * self.q1.x + 4 * self.q2.x + 6 * self.p3.x,
                y: 2 * self.q1.y + 4 * self.q2.y + 6 * self.p3.y,
            },
            q2: Point { x: 4 * self.q2.x + 12 * self.p3.x, y: 4 * self.q2.y + 12 * self.p3.y },
            p3: Point { x: 8 * self.p3.x, y: 8 * self.p3.y },
        };
        (left, right)
    }

    /// How far at most the points of the curve lie outside and inside the
    /// circle of `arc`, as `spec_power_high` and `spec_power_low` say it.
    pub fn power_range(&self, arc: &Arc) -> (range: (i128, i128))
        requires
            self.spec_in_lattice(64),
            arc.fine_wf(),
        ensures
            range.0 == self.spec_power_high(*arc),
            range.1 == self.spec_power_low(*arc),
            0 <= range.0 <= 0x400_0000_0000_0000_0000_0000_0000_0000,
            0 <= range.1 <= 0x400_0000_0000_0000_0000_0000_0000_0000,
    {
        let (x0, y0) = from_center(arc, self.p0.x as i128, self.p0.y as i128, 1);
        let (x1, y1) = from_center(arc, self.q1.x as i128, self.q1.y as i128, 3);
        let (x2, y2) = from_center(arc, self.q2.x as i128, self.q2.y as i128, 3);
        let (x3, y3) = from_center(arc, self.p3.x as i128, self.p3.y as i128, 1);
        let r2: i128 = fine_radius2(arc);
        let h00: i128 = power(x0, y0, x0, y0, 1, r2);
        let h01: i128 = power(x0, y0, x1, y1, 3, r2);
        let h02: i128 = power(x0, y0, x2, y2, 3, r2);
        let h03: i128 = power(x0, y0, x3, y3, 1, r2);
        let h11: i128 = power(x1, y1, x1, y1, 9, r2);
        let h12: i128 = power(x1, y1, x2, y2, 9, r2);
        let h13: i128 = power(x1, y1, x3, y3, 3, r2);
        let h22: i128 = power(x2, y2, x2, y2, 9, r2);
        let h23: i128 = power(x2, y2, x3, y3, 3, r2);
        let h33: i128 = power(x3, y3, x3, y3, 1, r2);
        let s0: i128 = h00;
        let s1: i128 = 2 * h01;
        let s2: i128 = 2 * h02 + h11;
        let s3: i128 = 2 * h03 + 2 * h12;
        let s4: i128 = 2 * h13 + h22;
        let s5: i128 = 2 * h23;
        let s6: i128 = h33;
        (shares(s0, s1, s2, s3, s4, s5, s6), shares(-s0, -s1, -s2, -s3, -s4, -s5, -s6))
    }

    /// The two halves of the curve.
    pub fn split(&self) -> (halves: (Bezier, Bezier))
        requires
            self.wf(),
        ensures
            halves.0 == self.spec_left(),
            halves.1 == self.spec_right(),
            halves.0.wf(),
            halves.1.wf(),
    {
        proof {
            reveal(Bezier::spec_left);
            reveal(Bezier::spec_right);
        }
        let p0x: i128 = self.p0.x as i128;
        let p0y: i128 = self.p0.y as i128;
        let q1x: i128 = self.q1.x as i128;
        let q1y: i128 = self.q1.y as i128;
        let q2x: i128 = self.q2.x as i128;
        let q2y: i128 = self.q2.y as i128;
        let p3x: i128 = self.p3.x as i128;
        let p3y: i128 = self.p3.y as i128;
        proof {
            lemma_split_in_range(*self);
        }
        let m = Point {
            x: div_round_away(p0x + q1x + q2x + p3x, 8) as i64,
            y: div_round_away(p0y + q1y + q2y + p3y, 8) as i64,
        };
        let left = Bezier {
            p0: self.p0,
            q1: Point {
                x: div_round_away(3 * p0x + q1x, 2) as i64,
                y: div_round_away(3 * p0y + q1y, 2) as i64,
            },
            q2: Point {
                x: div_round_away(3 * p0x + 2 * q1x + q2x, 4) as i64,
                y: div_round_away(3 * p0y + 2 * q1y + q2y, 4) as i64,
            },
            p3: m,
        };
        let right = Bezier {
            p0: m,
            q1: Point {
                x: div_round_away(q1x + 2 * q2x + 3 * p3x, 4) as i64,
                y: div_round_away(q1y + 2 * q2y + 3 * p3y, 4) as i64,
            },
            q2: Point {
                x: div_round_away(q2x + 3 * p3x, 2) as i64,
                y: div_round_away(q2y + 3 * p3y, 2) as i64,
            },
            p3: self.p3,
        };
        (left, right)
    }
}

/// The most arcs that a curve yields when it is halved at most `depth` times.
pub open spec fn max_arcs(depth: nat) -> nat
    decreases depth,
{
    if depth == 0 {
        1
    } else {
        2 * max_arcs((depth - 1) as nat)
    }
}

/// How far a piece that came of `level` halvings may lie off the curve, in
/// whole lattice units rounded up. Each halving rounds the control points
/// to the lattice, which moves the points of a piece by at most half a unit
/// along each axis: after `level` halvings by at most `level` half units
/// along each axis, which is the square root of `2 * level * level`, halved.
pub open spec fn spec_drift(level: nat) -> int {
    ceil_div(ceil_sqrt(2 * (level * level)) as int, 2)
}

/// The pieces into which `b` is cut, where `b` itself came of `level`
/// halvings: `b` where its fitted arc is taken or no halving is left, else
/// the pieces of its two halves.
pub open spec fn spec_pieces_from(b: Bezier, tolerance: int, level: nat, depth: nat) -> Seq<
    Bezier,
>
    decreases depth,
{
    if depth == 0 || b.spec_accepts(tolerance, level) {
        seq![b]
    } else {
        spec_pieces_from(b.spec_left(), tolerance, level + 1, (depth - 1) as nat)
            + spec_pieces_from(b.spec_right(), tolerance, level + 1, (depth - 1) as nat)
    }
}

/// The arcs that stand for the pieces of `b`, where `b` itself came of
/// `level` halvings: the fitted arc of each piece, in the order of the curve.
pub open spec fn spec_approximate_from(b: Bezier, tolerance: int, level: nat, depth: nat) -> Seq<
    Arc,
>
    decreases depth,
{
    if depth == 0 || b.spec_accepts(tolerance, level) {
        seq![b.spec_fit_arc()]
    } else {
        spec_approximate_from(b.spec_left(), tolerance, level + 1, (depth - 1) as nat)
            + spec_approximate_from(b.spec_right(), tolerance, level + 1, (depth - 1) as nat)
    }
}

/// Halving `b` at most `depth` times brings every piece to an arc that is
/// taken: no arc is taken only because the depth ran out.
pub open spec fn spec_converges_from(b: Bezier, tolerance: int, level: nat, depth: nat) -> bool
    decreases depth,
{
    b.spec_accepts(tolerance, level) || (depth > 0 && spec_converges_from(
        b.spec_left(),
        tolerance,
        level + 1,
        (depth - 1) as nat,
    ) && spec_converges_from(b.spec_right(), tolerance, level + 1, (depth - 1) as nat))
}

/// How often `b` was halved to give its piece `i`.
pub open spec fn spec_piece_depth_from(
    b: Bezier,
    tolerance: int,
    level: nat,
    depth: nat,
    i: int,
) -> nat
    decreases depth,
{
    if depth == 0 || b.spec_accepts(tolerance, level) {
        0
    } else {
        let d1 = (depth - 1) as nat;
        let l = spec_pieces_from(b.spec_left(), tolerance, level + 1, d1).len();
        if i < l {
            1 + spec_piece_depth_from(b.spec_left(), tolerance, level + 1, d1, i)
        } else {
            1 + spec_piece_depth_from(b.spec_right(), tolerance, level + 1, d1, i - l)
        }
    }
}

/// The pieces into which the curve `b` is cut.
pub open spec fn spec_pieces(b: Bezier, tolerance: int, depth: nat) -> Seq<Bezier> {
    spec_pieces_from(b, tolerance, 0, depth)
}

/// The arcs that approximate the curve `b`: the fitted arc of each of its
/// pieces, in the order of the curve.
pub open spec fn spec_approximate(b: Bezier, tolerance: int, depth: nat) -> Seq<Arc> {
    spec_approximate_from(b, tolerance, 0, depth)
}

/// Halving the curve `b` at most `depth` times brings every piece within
/// `tolerance`: no arc is taken only because the depth ran out.
pub open spec fn spec_converges(b: Bezier, tolerance: int, depth: nat) -> bool {
    spec_converges_from(b, tolerance, 0, depth)
}

/// How often the curve `b` was halved to give its piece `i`.
pub open spec fn spec_piece_depth(b: Bezier, tolerance: int, depth: nat, i: int) -> nat {
    spec_piece_depth_from(b, tolerance, 0, depth, i)
}

/// The arcs are well formed, each starts where the one before it ends, and
/// together they lead from `from` to `to`.
pub open spec fn is_chain(arcs: Seq<Arc>, from: Point, to: Point) -> bool {
    &&& arcs.len() >= 1
    &&& arcs[0].p0 == from
    &&& arcs[arcs.len() - 1].p1 == to
    &&& forall|i: int| 0 <= i < arcs.len() ==> (#[trigger] arcs[i]).wf()
    &&& forall|i: int| 0 <= i < arcs.len() - 1 ==> (#[trigger] arcs[i]).p1 == arcs[i + 1].p0
}

/// The bound on the number of arcs is at least one.
pub proof fn lemma_max_arcs_positive(depth: nat)
    ensures
        max_arcs(depth) >= 1,
    decreases depth,
{
    if depth > 0 {
        lemma_max_arcs_positive((depth - 1) as nat);
    }
}

/// The halves of a well-formed curve are well formed, and they meet at the
/// split point.
pub proof fn lemma_split_wf(b: Bezier)
    requires
        b.wf(),
    ensures
        b.spec_left().wf(),
        b.spec_right().wf(),
        b.spec_left().p0 == b.p0,
        b.spec_left().p3 == b.spec_right().p0,
        b.spec_right().p3 == b.p3,
{
    reveal(Bezier::spec_left);
    reveal(Bezier::spec_right);
    lemma_split_in_range(b);
}

/// The rounded control points of the halves of a well-formed curve are in
/// range: the ends within the lattice, the inner ones within three times it.
pub proof fn lemma_split_in_range(b: Bezier)
    requires
        b.wf(),
    ensures
        -1048576 <= round_away(b.p0.x + b.q1.x + b.q2.x + b.p3.x, 8) <= 1048576,
        -1048576 <= round_away(b.p0.y + b.q1.y + b.q2.y + b.p3.y, 8) <= 1048576,
        -3145728 <= round_away(3 * b.p0.x + b.q1.x, 2) <= 3145728,
        -3145728 <= round_away(3 * b.p0.y + b.q1.y, 2) <= 3145728,
        -3145728 <= round_away(3 * b.p0.x + 2 * b.q1.x + b.q2.x, 4) <= 3145728,
        -3145728 <= round_away(3 * b.p0.y + 2 * b.q1.y + b.q2.y, 4) <= 3145728,
        -3145728 <= round_away(b.q1.x + 2 * b.q2.x + 3 * b.p3.x, 4) <= 3145728,
        -3145728 <= round_away(b.q1.y + 2 * b.q2.y + 3 * b.p3.y, 4) <= 3145728,
        -3145728 <= round_away(b.q2.x + 3 * b.p3.x, 2) <= 3145728,
        -3145728 <= round_away(b.q2.y + 3 * b.p3.y, 2) <= 3145728,
{
    lemma_round_away_bound(b.p0.x + b.q1.x + b.q2.x + b.p3.x, 8, 1048576);
    lemma_round_away_bound(b.p0.y + b.q1.y + b.q2.y + b.p3.y, 8, 1048576);
    lemma_round_away_bound(3 * b.p0.x + b.q1.x, 2, 3145728);
    lemma_round_away_bound(3 * b.p0.y + b.q1.y, 2, 3145728);
    lemma_round_away_bound(3 * b.p0.x + 2 * b.q1.x + b.q2.x, 4, 3145728);
    lemma_round_away_bound(3 * b.p0.y + 2 * b.q1.y + b.q2.y, 4, 3145728);
    lemma_round_away_bound(b.q1.x + 2 * b.q2.x + 3 * b.p3.x, 4, 3145728);
    lemma_round_away_bound(b.q1.y + 2 * b.q2.y + 3 * b.p3.y, 4, 3145728);
    lemma_round_away_bound(b.q2.x + 3 * b.p3.x, 2, 3145728);
    lemma_round_away_bound(b.q2.y + 3 * b.p3.y, 2, 3145728);
}

/// The halves of a curve as they are held: the control points of the halves
/// are whole numbers, whatever the curve.
pub proof fn lemma_split_exact(b: Bezier)
    ensures
        b.spec_left().p0 == b.p0,
        b.spec_right().p3 == b.p3,
        b.spec_left().p3 == b.spec_right().p0,
        b.wf() ==> b.spec_left().q1.x == round_away(3 * b.p0.x + b.q1.x, 2) && b.spec_left().q1.y
            == round_away(3 * b.p0.y + b.q1.y, 2) && b.spec_left().q2.x == round_away(
            3 * b.p0.x + 2 * b.q1.x + b.q2.x,
            4,
        ) && b.spec_left().q2.y == round_away(3 * b.p0.y + 2 * b.q1.y + b.q2.y, 4)
            && b.spec_left().p3.x == round_away(b.p0.x + b.q1.x + b.q2.x + b.p3.x, 8)
            && b.spec_left().p3.y == round_away(b.p0.y + b.q1.y + b.q2.y + b.p3.y, 8)
            && b.spec_right().q1.x == round_away(b.q1.x + 2 * b.q2.x + 3 * b.p3.x, 4)
            && b.spec_right().q1.y == round_away(b.q1.y + 2 * b.q2.y + 3 * b.p3.y, 4)
            && b.spec_right().q2.x == round_away(b.q2.x + 3 * b.p3.x, 2) && b.spec_right().q2.y
            == round_away(b.q2.y + 3 * b.p3.y, 2),
{
    reveal(Bezier::spec_left);
    reveal(Bezier::spec_right);
    if b.wf() {
        lemma_split_in_range(b);
    }
}

/// The fitted arc of a well-formed curve is well formed and joins its ends.
pub proof fn lemma_fit_arc_wf(b: Bezier)
    requires
        b.wf(),
    ensures
        b.spec_fit_arc().wf(),
        b.spec_fit_arc().spec_minor(),
        b.spec_fit_arc().p0 == b.p0,
        b.spec_fit_arc().p1 == b.p3,
{
    reveal(Bezier::spec_fit_d);
}

/// A fit never comes back empty, whatever the tolerance and the depth: the
/// arcs form a chain from the start of the curve to its end, one arc for each
/// piece, and there are at most `max_arcs(depth)` of them.
pub proof fn lemma_approximate_chain(b: Bezier, tolerance: int, depth: nat)
    requires
        b.wf(),
    ensures
        is_chain(spec_approximate(b, tolerance, depth), b.p0, b.p3),
        spec_approximate(b, tolerance, depth).len() <= max_arcs(depth),
        spec_approximate(b, tolerance, depth).len() == spec_pieces(b, tolerance, depth).len(),
        forall|i: int|
            0 <= i < spec_pieces(b, tolerance, depth).len() ==> (#[trigger] spec_pieces(
                b,
                tolerance,
                depth,
            )[i]).wf() && spec_approximate(b, tolerance, depth)[i] == spec_pieces(
                b,
                tolerance,
                depth,
            )[i].spec_fit_arc(),
{
    lemma_approximate_chain_from(b, tolerance, 0, depth);
}

/// The same of a piece that came of `level` halvings.
pub proof fn lemma_approximate_chain_from(b: Bezier, tolerance: int, level: nat, depth: nat)
    requires
        b.wf(),
    ensures
        is_chain(spec_approximate_from(b, tolerance, level, depth), b.p0, b.p3),
        spec_approximate_from(b, tolerance, level, depth).len() <= max_arcs(depth),
        spec_approximate_from(b, tolerance, level, depth).len() == spec_pieces_from(
            b,
            tolerance,
            level,
            depth,
        ).len(),
        forall|i: int|
            0 <= i < spec_pieces_from(b, tolerance, level, depth).len() ==> (
            #[trigger] spec_pieces_from(b, tolerance, level, depth)[i]).wf()
                && spec_approximate_from(b, tolerance, level, depth)[i] == spec_pieces_from(
                b,
                tolerance,
                level,
                depth,
            )[i].spec_fit_arc(),
    decreases depth,
{
    lemma_fit_arc_wf(b);
    lemma_max_arcs_positive(depth);
    if depth == 0 || b.spec_accepts(tolerance, level) {
    } else {
        let d1 = (depth - 1) as nat;
        lemma_split_wf(b);
        lemma_approximate_chain_from(b.spec_left(), tolerance, level + 1, d1);
        lemma_approximate_chain_from(b.spec_right(), tolerance, level + 1, d1);
        let la = spec_approximate_from(b.spec_left(), tolerance, level + 1, d1);
        let ra = spec_approximate_from(b.spec_right(), tolerance, level + 1, d1);
        let lp = spec_pieces_from(b.spec_left(), tolerance, level + 1, d1);
        let rp = spec_pieces_from(b.spec_right(), tolerance, level + 1, d1);
        let arcs = spec_approximate_from(b, tolerance, level, depth);
        let pieces = spec_pieces_from(b, tolerance, level, depth);
        assert(arcs == la + ra);
        assert(pieces == lp + rp);
        assert forall|i: int| 0 <= i < arcs.len() implies (#[trigger] arcs[i]).wf() by {
            if i < la.len() {
                assert(arcs[i] == la[i]);
            } else {
                assert(arcs[i] == ra[i - la.len()]);
            }
        }
        assert forall|i: int| 0 <= i < arcs.len() - 1 implies (#[trigger] arcs[i]).p1 == arcs[i
            + 1].p0 by {
            if i + 1 < la.len() {
                assert(arcs[i] == la[i]);
                assert(arcs[i + 1] == la[i + 1]);
            } else if i < la.len() {
                assert(arcs[i] == la[la.len() - 1]);
                assert(arcs[i + 1] == ra[0]);
            } else {
                assert(arcs[i] == ra[i - la.len()]);
                assert(arcs[i + 1] == ra[i - la.len() + 1]);
            }
        }
        assert(arcs[0] == la[0]);
        assert(arcs[arcs.len() - 1] == ra[ra.len() - 1]);
        assert forall|i: int| 0 <= i < pieces.len() implies (#[trigger] pieces[i]).wf()
            && arcs[i] == pieces[i].spec_fit_arc() by {
            if i < lp.len() {
                assert(pieces[i] == lp[i]);
                assert(arcs[i] == la[i]);
            } else {
                assert(pieces[i] == rp[i - lp.len()]);
                assert(arcs[i] == ra[i - la.len()]);
            }
        }
    }
}

/// Where the halving converges, the arc of every piece is taken by the
/// rule, at the number of halvings that gave the piece.
pub proof fn lemma_converged_within_tolerance(b: Bezier, tolerance: int, depth: nat, i: int)
    requires
        b.wf(),
        spec_converges(b, tolerance, depth),
        0 <= i < spec_pieces(b, tolerance, depth).len(),
    ensures
        spec_pieces(b, tolerance, depth)[i].spec_accepts(
            tolerance,
            spec_piece_depth(b, tolerance, depth, i),
        ),
        spec_piece_depth(b, tolerance, depth, i) <= depth,
{
    lemma_converged_from(b, tolerance, 0, depth, i);
}

/// The same of a piece that came of `level` halvings.
pub proof fn lemma_converged_from(b: Bezier, tolerance: int, level: nat, depth: nat, i: int)
    requires
        b.wf(),
        spec_converges_from(b, tolerance, level, depth),
        0 <= i < spec_pieces_from(b, tolerance, level, depth).len(),
    ensures
        spec_pieces_from(b, tolerance, level, depth)[i].spec_accepts(
            tolerance,
            level + spec_piece_depth_from(b, tolerance, level, depth, i),
        ),
        spec_piece_depth_from(b, tolerance, level, depth, i) <= depth,
    decreases depth,
{
    if depth == 0 || b.spec_accepts(tolerance, level) {
    } else {
        let d1 = (depth - 1) as nat;
        let lp = spec_pieces_from(b.spec_left(), tolerance, level + 1, d1);
        let rp = spec_pieces_from(b.spec_right(), tolerance, level + 1, d1);
        lemma_split_wf(b);
        assert(spec_pieces_from(b, tolerance, level, depth) == lp + rp);
        if i < lp.len() {
            lemma_converged_from(b.spec_left(), tolerance, level + 1, d1, i);
        } else {
            lemma_converged_from(b.spec_right(), tolerance, level + 1, d1, i - lp.len());
        }
    }
}

/// How far a piece that came of `level` halvings may lie off the curve.
pub fn drift(level: u32) -> (e: i64)
    ensures
        e == spec_drift(level as nat),
        0 <= e <= level,
{
    let l: u128 = level as u128;
    assert(l * l <= 0xffff_ffff * 0xffff_ffff && 2 * (l * l) <= (2 * l) * (2 * l))
        by (nonlinear_arith)
        requires
            0 <= l <= 0xffff_ffff,
    ;
    let r: u128 = ceil_sqrt_u128(2 * (l * l));
    proof {
        lemma_ceil_sqrt_le((2 * (l * l)) as nat, (2 * l) as nat);
    }
    div_ceil(r as i128, 2) as i64
}

/// Whether halving the curve `b` at most `depth` times brings every piece
/// within `tolerance`: then no arc of the fit is taken only because the
/// depth ran out, and the fit keeps to the curve.
pub fn converges(b: &Bezier, tolerance: i64, depth: u32) -> (yes: bool)
    requires
        b.wf(),
    ensures
        yes == spec_converges(*b, tolerance as int, depth as nat),
{
    converges_from(b, tolerance, 0, depth)
}

/// The same of a piece that came of `level` halvings.
pub fn converges_from(b: &Bezier, tolerance: i64, level: u32, depth: u32) -> (yes: bool)
    requires
        b.wf(),
        level + depth <= u32::MAX,
    ensures
        yes == spec_converges_from(*b, tolerance as int, level as nat, depth as nat),
    decreases depth,
{
    let arc = b.fit_arc();
    let e: i64 = b.deviation(&arc);
    if e + drift(level) <= tolerance {
        return true;
    }
    if depth == 0 {
        return false;
    }
    let (left, right) = b.split();
    converges_from(&left, tolerance, level + 1, depth - 1) && converges_from(
        &right,
        tolerance,
        level + 1,
        depth - 1,
    )
}

/// Appends to `out` the arcs that approximate the curve `b` within
/// `tolerance`, halving at most `depth` times.
pub fn approximate(b: &Bezier, tolerance: i64, depth: u32, out: &mut Vec<Arc>)
    requires
        b.wf(),
    ensures
        final(out)@ == old(out)@ + spec_approximate(*b, tolerance as int, depth as nat),
{
    approximate_from(b, tolerance, 0, depth, out);
}

/// Appends to `out` the arcs that stand for the pieces of `b`, a piece that
/// came of `level` halvings, halving at most `depth` times more.
pub fn approximate_from(b: &Bezier, tolerance: i64, level: u32, depth: u32, out: &mut Vec<Arc>)
    requires
        b.wf(),
        level + depth <= u32::MAX,
    ensures
        final(out)@ == old(out)@ + spec_approximate_from(
            *b,
            tolerance as int,
            level as nat,
            depth as nat,
        ),
    decreases depth,
{
    let arc = b.fit_arc();
    if depth == 0 {
        out.push(arc);
        assert(final(out)@ == old(out)@ + seq![arc]);
        return ;
    }
    let e: i64 = b.deviation(&arc);
    if e + drift(level) <= tolerance {
        out.push(arc);
        assert(final(out)@ == old(out)@ + seq![arc]);
    } else {
        let (left, right) = b.split();
        let ghost before = out@;
        approximate_from(&left, tolerance, level + 1, depth - 1, out);
        let ghost middle = out@;
        approximate_from(&right, tolerance, level + 1, depth - 1, out);
        proof {
            let la = spec_approximate_from(
                left,
                tolerance as int,
                (level + 1) as nat,
                (depth - 1) as nat,
            );
            let ra = spec_approximate_from(
                right,
                tolerance as int,
                (level + 1) as nat,
                (depth - 1) as nat,
            );
            assert((before + la) + ra == before + (la + ra));
        }
    }
}

/// The one arc that stands for the straight segment from `p0` to `p1`: it
/// has the curvature zero and the ends of the segment.
pub fn approximate_line(p0: &Point, p1: &Point) -> (arcs: Vec<Arc>)
    ensures
        arcs@ == seq![Arc::spec_line(*p0, *p1)],
{
    let mut arcs: Vec<Arc> = Vec::new();
    arcs.push(Arc::from_line(p0, p1));
    assert(arcs@ == seq![Arc::spec_line(*p0, *p1)]);
    arcs
}

/// The arcs that approximate the quadratic segment from `p0` to `p2` with the
/// control point `p1`.
pub fn approximate_conic(p0: &Point, p1: &Point, p2: &Point, tolerance: i64) -> (arcs: Vec<Arc>)
    requires
        p0.wf(),
        p1.wf(),
        p2.wf(),
    ensures
        arcs@ == spec_approximate(
            Bezier::spec_conic(*p0, *p1, *p2),
            tolerance as int,
            MAX_DEPTH as nat,
        ),
        is_chain(arcs@, *p0, *p2),
{
    let b = Bezier::conic(p0, p1, p2);
    let mut arcs: Vec<Arc> = Vec::new();
    approximate(&b, tolerance, MAX_DEPTH, &mut arcs);
    proof {
        lemma_approximate_chain(b, tolerance as int, MAX_DEPTH as nat);
        assert(arcs@ == spec_approximate(b, tolerance as int, MAX_DEPTH as nat));
    }
    arcs
}

/// The arcs that approximate the cubic segment from `p0` to `p3` with the
/// control points `p1` and `p2`.
pub fn approximate_cubic(p0: &Point, p1: &Point, p2: &Point, p3: &Point, tolerance: i64) -> (arcs:
    Vec<Arc>)
    requires
        p0.wf(),
        p1.wf(),
        p2.wf(),
        p3.wf(),
    ensures
        arcs@ == spec_approximate(
            Bezier::spec_cubic(*p0, *p1, *p2, *p3),
            tolerance as int,
            MAX_DEPTH as nat,
        ),
        is_chain(arcs@, *p0, *p3),
{
    let b = Bezier::cubic(p0, p1, p2, p3);
    let mut arcs: Vec<Arc> = Vec::new();
    approximate(&b, tolerance, MAX_DEPTH, &mut arcs);
    proof {
        lemma_approximate_chain(b, tolerance as int, MAX_DEPTH as nat);
        assert(arcs@ == spec_approximate(b, tolerance as int, MAX_DEPTH as nat));
    }
    arcs
}

impl Arc {
    /// The arc fitted to the quadratic segment from `p0` to `p2` with the
    /// control point `p1`, and how far it is off the segment: no point of
    /// the curve lies farther from the arc.
    pub fn from_conic(p0: &Point, p1: &Point, p2: &Point) -> (fit: (Arc, i64))
        requires
            p0.wf(),
            p1.wf(),
            p2.wf(),
        ensures
            fit.0 == Bezier::spec_conic(*p0, *p1, *p2).spec_fit_arc(),
            fit.1 == Bezier::spec_conic(*p0, *p1, *p2).spec_deviation(fit.0),
            fit.0.p0 == *p0,
            fit.0.p1 == *p2,
            fit.0.wf(),
            fit.1 >= 0,
            forall|k: int, n: int|
                0 <= k <= n && n > 0 ==> fit.0.spec_within(
                    #[trigger] Bezier::spec_conic(*p0, *p1, *p2).spec_point_x(k, n),
                    Bezier::spec_conic(*p0, *p1, *p2).spec_point_y(k, n),
                    (n * n) * n,
                    fit.1 as int,
                ),
    {
        Bezier::conic(p0, p1, p2).fit()
    }

    /// The arc fitted to the cubic segment from `p0` to `p3` with the control
    /// points `p1` and `p2`, and how far it is off the segment: no point of
    /// the curve lies farther from the arc.
    pub fn from_cubic(p0: &Point, p1: &Point, p2: &Point, p3: &Point) -> (fit: (Arc, i64))
        requires
            p0.wf(),
            p1.wf(),
            p2.wf(),
            p3.wf(),
        ensures
            fit.0 == Bezier::spec_cubic(*p0, *p1, *p2, *p3).spec_fit_arc(),
            fit.1 == Bezier::spec_cubic(*p0, *p1, *p2, *p3).spec_deviation(fit.0),
            fit.0.p0 == *p0,
            fit.0.p1 == *p3,
            fit.0.wf(),
            fit.1 >= 0,
            forall|k: int, n: int|
                0 <= k <= n && n > 0 ==> fit.0.spec_within(
                    #[trigger] Bezier::spec_cubic(*p0, *p1, *p2, *p3).spec_point_x(k, n),
                    Bezier::spec_cubic(*p0, *p1, *p2, *p3).spec_point_y(k, n),
                    (n * n) * n,
                    fit.1 as int,
                ),
    {
        Bezier::cubic(p0, p1, p2, p3).fit()
    }
}

/// The weight of the control point `a` in the scale of a point of the curve:
/// one for the ends, three for the inner two, which are held three-fold.
pub open spec fn control_scale(a: int) -> int {
    if a == 0 || a == 3 {
        1
    } else {
        3
    }
}

/// The absolute value of `a`.
pub fn abs_i128(a: i128) -> (r: i128)
    requires
        a > i128::MIN,
    ensures
        r == abs(a as int),
{
    if a < 0 {
        -a
    } else {
        a
    }
}

/// The larger of two numbers.
pub fn max_i128(a: i128, b: i128) -> (r: i128)
    ensures
        r == upper(a as int, b as int),
{
    if a > b {
        a
    } else {
        b
    }
}

/// The product of two vectors from the centre of a circle, less `scale`
/// times the squared radius `r2`.
pub fn power(ax: i128, ay: i128, cx: i128, cy: i128, scale: i128, r2: i128) -> (h: i128)
    requires
        -576460752303423488 <= ax <= 576460752303423488,
        -576460752303423488 <= ay <= 576460752303423488,
        -576460752303423488 <= cx <= 576460752303423488,
        -576460752303423488 <= cy <= 576460752303423488,
        1 <= scale <= 9,
        0 <= r2 <= 10384593717069655257060992658440192,
    ensures
        h == ax * cx + ay * cy - scale * r2,
        -0x100_0000_0000_0000_0000_0000_0000_0000 <= h <= 0x100_0000_0000_0000_0000_0000_0000_0000,
{
    proof {
        lemma_mul_bound(ax as int, cx as int, 576460752303423488, 576460752303423488);
        lemma_mul_bound(ay as int, cy as int, 576460752303423488, 576460752303423488);
        lemma_mul_bound(scale as int, r2 as int, 9, 10384593717069655257060992658440192);
    }
    ax * cx + ay * cy - scale * r2
}

/// The part of `h` that falls to each of `c` equal terms, rounded up; zero
/// for a negative `h`.
pub open spec fn share(h: int, c: int) -> int {
    ceil_div(upper(h, 0), c)
}

/// The largest share among seven sums, the sum `m` shared among the number
/// of ways to choose `m` from six.
pub open spec fn largest_share(
    h0: int,
    h1: int,
    h2: int,
    h3: int,
    h4: int,
    h5: int,
    h6: int,
) -> int {
    upper(
        upper(upper(share(h0, 1), share(h1, 6)), upper(share(h2, 15), share(h3, 20))),
        upper(upper(share(h4, 15), share(h5, 6)), share(h6, 1)),
    )
}

/// The largest share among seven sums.
pub fn shares(h0: i128, h1: i128, h2: i128, h3: i128, h4: i128, h5: i128, h6: i128) -> (e: i128)
    requires
        -0x400_0000_0000_0000_0000_0000_0000_0000 <= h0 <= 0x400_0000_0000_0000_0000_0000_0000_0000,
        -0x400_0000_0000_0000_0000_0000_0000_0000 <= h1 <= 0x400_0000_0000_0000_0000_0000_0000_0000,
        -0x400_0000_0000_0000_0000_0000_0000_0000 <= h2 <= 0x400_0000_0000_0000_0000_0000_0000_0000,
        -0x400_0000_0000_0000_0000_0000_0000_0000 <= h3 <= 0x400_0000_0000_0000_0000_0000_0000_0000,
        -0x400_0000_0000_0000_0000_0000_0000_0000 <= h4 <= 0x400_0000_0000_0000_0000_0000_0000_0000,
        -0x400_0000_0000_0000_0000_0000_0000_0000 <= h5 <= 0x400_0000_0000_0000_0000_0000_0000_0000,
        -0x400_0000_0000_0000_0000_0000_0000_0000 <= h6 <= 0x400_0000_0000_0000_0000_0000_0000_0000,
    ensures
        e == largest_share(
            h0 as int,
            h1 as int,
            h2 as int,
            h3 as int,
            h4 as int,
            h5 as int,
            h6 as int,
        ),
        0 <= e <= 0x400_0000_0000_0000_0000_0000_0000_0000,
{
    let e0: i128 = div_ceil(max_i128(h0, 0), 1);
    let e1: i128 = div_ceil(max_i128(h1, 0), 6);
    let e2: i128 = div_ceil(max_i128(h2, 0), 15);
    let e3: i128 = div_ceil(max_i128(h3, 0), 20);
    let e4: i128 = div_ceil(max_i128(h4, 0), 15);
    let e5: i128 = div_ceil(max_i128(h5, 0), 6);
    let e6: i128 = div_ceil(max_i128(h6, 0), 1);
    max_i128(max_i128(max_i128(e0, e1), max_i128(e2, e3)), max_i128(max_i128(e4, e5), e6))
}

/// The vector from the centre of the circle of `arc` to `(x / s, y / s)`,
/// times `4 * d * CURVATURE_ONE * s`, for an arc and a point of the finer
/// lattice.
pub fn from_center(arc: &Arc, x: i128, y: i128, s: i128) -> (v: (i128, i128))
    requires
        arc.fine_wf(),
        1 <= s <= 3,
        -201326592 <= x <= 201326592,
        -201326592 <= y <= 201326592,
    ensures
        v.0 == arc.spec_scaled_from_center_x(x as int, s as int),
        v.1 == arc.spec_scaled_from_center_y(y as int, s as int),
        -576460752303423488 <= v.0 <= 576460752303423488,
        -576460752303423488 <= v.1 <= 576460752303423488,
{
    let n: i128 = arc.d as i128;
    let unit: i128 = CURVATURE_ONE as i128;
    let cx: i128 = arc.p1.x as i128 - arc.p0.x as i128;
    let cy: i128 = arc.p1.y as i128 - arc.p0.y as i128;
    let sx: i128 = arc.p0.x as i128 + arc.p1.x as i128;
    let sy: i128 = arc.p0.y as i128 + arc.p1.y as i128;
    proof {
        lemma_square_bound(n as int, 16384);
        lemma_mul_bound(n as int, unit as int, 16384, 16384);
        lemma_mul_bound(s as int, sx as int, 3, 134217728);
        lemma_mul_bound(s as int, sy as int, 3, 134217728);
        lemma_mul_bound(s as int, cx as int, 3, 134217728);
        lemma_mul_bound(s as int, cy as int, 3, 134217728);
    }
    let u: i128 = unit * unit - n * n;
    let w: i128 = 2 * (n * unit);
    let qx: i128 = 2 * x - s * sx;
    let qy: i128 = 2 * y - s * sy;
    let scx: i128 = s * cx;
    let scy: i128 = s * cy;
    proof {
        lemma_mul_bound(w as int, qx as int, 536870912, 805306368);
        lemma_mul_bound(w as int, qy as int, 536870912, 805306368);
        lemma_mul_bound(scx as int, u as int, 402653184, 268435456);
        lemma_mul_bound(scy as int, u as int, 402653184, 268435456);
    }
    (w * qx + scy * u, w * qy - scx * u)
}

/// The squared radius of the circle of an arc of the finer lattice, scaled
/// as `spec_radius2` says.
pub fn fine_radius2(arc: &Arc) -> (l: i128)
    requires
        arc.fine_wf(),
    ensures
        l == arc.spec_radius2(),
        0 <= l <= 10384593717069655257060992658440192,
{
    let n: i128 = arc.d as i128;
    let unit: i128 = CURVATURE_ONE as i128;
    let cx: i128 = arc.p1.x as i128 - arc.p0.x as i128;
    let cy: i128 = arc.p1.y as i128 - arc.p0.y as i128;
    proof {
        lemma_square_bound(n as int, 16384);
        lemma_square_bound(cx as int, 134217728);
        lemma_square_bound(cy as int, 134217728);
    }
    let g: i128 = unit * unit + n * n;
    proof {
        lemma_square_bound(g as int, 536870912);
    }
    let gg: i128 = g * g;
    let l2: i128 = cx * cx + cy * cy;
    proof {
        lemma_mul_bound(l2 as int, gg as int, 36028797018963968, 288230376151711744);
        assert(0 <= l2 * gg) by (nonlinear_arith)
            requires
                0 <= l2,
                0 <= gg,
        ;
    }
    l2 * gg
}

impl Arc {
    /// The arc run the other way: from `p1` to `p0`, with the opposite
    /// curvature.
    pub open spec fn spec_reversed(&self) -> Arc {
        Arc { p0: self.p1, p1: self.p0, d: (-self.d) as i64 }
    }

    /// The same arc on a lattice eight times finer.
    pub open spec fn spec_fine(&self) -> Arc {
        Arc {
            p0: Point { x: (8 * self.p0.x) as i64, y: (8 * self.p0.y) as i64 },
            p1: Point { x: (8 * self.p1.x) as i64, y: (8 * self.p1.y) as i64 },
            d: self.d,
        }
    }

    /// The ends are within the range of a lattice `f` times finer, and the
    /// curvature is in range.
    pub open spec fn spec_in_lattice(&self, f: int) -> bool {
        &&& -(f * COORD_MAX) <= self.p0.x <= f * COORD_MAX
        &&& -(f * COORD_MAX) <= self.p0.y <= f * COORD_MAX
        &&& -(f * COORD_MAX) <= self.p1.x <= f * COORD_MAX
        &&& -(f * COORD_MAX) <= self.p1.y <= f * COORD_MAX
        &&& curvature_in_range(self.d as int)
    }

    /// An arc of at most a half circle with its ends within the range of a
    /// lattice sixty-four times finer.
    pub open spec fn fine_wf(&self) -> bool {
        &&& self.spec_in_lattice(64)
        &&& self.spec_minor()
    }
}

} // verus!
