//! Signed distances from a point to an arc list.
//!
//! The magnitude is the distance to the nearest arc, in whole lattice units
//! rounded down. The sign is negative inside the region that the contours
//! bound and positive outside it. A point is inside where a ray from it
//! crosses the contours an odd number of times (the even-odd rule), so a
//! contour inside another cuts a hole, whichever way either is wound. The
//! crossings of an arc are those of its chord, together with one more for a
//! point that lies between the chord and the arc.

use vstd::prelude::*;
use crate::arc_list::{arc_list_arcs, arcs_wf, spec_arcs};
use crate::extents::{lower, upper};
use crate::geometry::{
    Arc,
    ArcEndpoint,
    Extents,
    Point,
    CURVATURE_ONE,
    arc_list_wf,
    at_most_half_circle,
};
use crate::numeric::{
    abs,
    div_floor,
    div_round,
    lemma_round_div_bound,
    round_div,
    signed,
    is_isqrt,
    isqrt,
    isqrt_u128,
    lemma_isqrt_exists,
    lemma_mul_bound,
    lemma_square_bound,
};

verus! {

/// The distance from a point to a list without arcs: farther than any arc.
pub const SDF_INFINITY: i64 = 9_223_372_036_854_775_807;

/// The squared distance between two points.
pub open spec fn spec_dist2(p: Point, q: Point) -> int {
    (p.x - q.x) * (p.x - q.x) + (p.y - q.y) * (p.y - q.y)
}

impl Arc {
    /// The squared length of the chord.
    pub open spec fn spec_len2(&self) -> int {
        (self.p1.x - self.p0.x) * (self.p1.x - self.p0.x) + (self.p1.y - self.p0.y) * (self.p1.y
            - self.p0.y)
    }

    /// The cross product of the chord and the vector from `p0` to `p`:
    /// positive where `p` lies to the left of the chord.
    pub open spec fn spec_cross(&self, p: Point) -> int {
        (self.p1.x - self.p0.x) * (p.y - self.p0.y) - (self.p1.y - self.p0.y) * (p.x - self.p0.x)
    }

    /// The squared distance from `p` to the nearer end of the arc.
    pub open spec fn spec_end_dist2(&self, p: Point) -> int {
        lower(spec_dist2(p, self.p0), spec_dist2(p, self.p1))
    }

    /// The x component of the vector from the centre of the arc's circle to
    /// `p`, times `4 * d * CURVATURE_ONE`.
    pub open spec fn spec_from_center_x(&self, p: Point) -> int {
        (2 * (self.d * CURVATURE_ONE)) * (2 * p.x - self.p0.x - self.p1.x) + (self.p1.y
            - self.p0.y) * (CURVATURE_ONE * CURVATURE_ONE - self.d * self.d)
    }

    /// The y component of the vector from the centre of the arc's circle to
    /// `p`, times `4 * d * CURVATURE_ONE`.
    pub open spec fn spec_from_center_y(&self, p: Point) -> int {
        (2 * (self.d * CURVATURE_ONE)) * (2 * p.y - self.p0.y - self.p1.y) - (self.p1.x
            - self.p0.x) * (CURVATURE_ONE * CURVATURE_ONE - self.d * self.d)
    }

    /// The squared distance from the centre of the arc's circle to `p`,
    /// times the square of `4 * d * CURVATURE_ONE`.
    pub open spec fn spec_from_center2(&self, p: Point) -> int {
        self.spec_from_center_x(p) * self.spec_from_center_x(p) + self.spec_from_center_y(p)
            * self.spec_from_center_y(p)
    }

    /// The squared radius of the arc's circle, times the square of
    /// `4 * d * CURVATURE_ONE`.
    pub open spec fn spec_radius2(&self) -> int {
        self.spec_len2() * ((CURVATURE_ONE * CURVATURE_ONE + self.d * self.d) * (CURVATURE_ONE
            * CURVATURE_ONE + self.d * self.d))
    }

    /// `p` lies in the wedge of the arc: beyond the line that stands at `p0`
    /// at a right angle to the arc and before the one at `p1`; for an arc of
    /// more than a half circle, beyond the one or before the other. There
    /// the nearest point of the arc is the foot of the perpendicular from
    /// `p`, elsewhere an end.
    pub open spec fn spec_in_wedge(&self, p: Point) -> bool {
        let cx = self.p1.x - self.p0.x;
        let cy = self.p1.y - self.p0.y;
        let u = CURVATURE_ONE * CURVATURE_ONE - self.d * self.d;
        let v = 2 * (self.d * CURVATURE_ONE);
        let start = (p.x - self.p0.x) * (cx * u + cy * v) + (p.y - self.p0.y) * (cy * u - cx * v);
        let end = (p.x - self.p1.x) * (cx * u - cy * v) + (p.y - self.p1.y) * (cy * u + cx * v);
        if at_most_half_circle(self.d as int) {
            start >= 0 && end <= 0
        } else {
            start >= 0 || end <= 0
        }
    }

    /// The distance from `p` to the arc, in whole lattice units. In the wedge
    /// of a straight arc it is the distance to the line of the chord, in the
    /// wedge of a curved arc the difference between the radius and the
    /// distance to the centre, and elsewhere the distance to the nearer end.
    /// The distance to a line or an end is rounded down; of a radius and a
    /// distance to the centre, each is rounded down to a whole multiple of
    /// `1 / (4 * d * CURVATURE_ONE)` before they are compared.
    pub open spec fn spec_distance(&self, p: Point) -> int {
        if !self.spec_in_wedge(p) || (self.d == 0 && self.spec_len2() == 0) {
            isqrt(self.spec_end_dist2(p) as nat) as int
        } else if self.d == 0 {
            isqrt(((self.spec_cross(p) * self.spec_cross(p)) / self.spec_len2()) as nat) as int
        } else {
            abs(isqrt(self.spec_from_center2(p) as nat) - isqrt(self.spec_radius2() as nat)) / (4
                * abs(self.d * CURVATURE_ONE))
        }
    }

    /// How far along the chord the foot of the perpendicular from `p` lies:
    /// zero at `p0`, the squared length of the chord at `p1`.
    pub open spec fn spec_along(&self, p: Point) -> int {
        (p.x - self.p0.x) * (self.p1.x - self.p0.x) + (p.y - self.p0.y) * (self.p1.y - self.p0.y)
    }

    /// The x coordinate of the centre of the arc's circle, times
    /// `4 * d * CURVATURE_ONE`.
    pub open spec fn spec_center_x(&self) -> int {
        (2 * (self.d * CURVATURE_ONE)) * (self.p0.x + self.p1.x) - (self.p1.y - self.p0.y) * (
        CURVATURE_ONE * CURVATURE_ONE - self.d * self.d)
    }

    /// The y coordinate of the centre of the arc's circle, times
    /// `4 * d * CURVATURE_ONE`.
    pub open spec fn spec_center_y(&self) -> int {
        (2 * (self.d * CURVATURE_ONE)) * (self.p0.y + self.p1.y) + (self.p1.x - self.p0.x) * (
        CURVATURE_ONE * CURVATURE_ONE - self.d * self.d)
    }

    /// The point of the arc that is nearest to `p`, rounded to the lattice.
    /// Outside the wedge it is the nearer end, `p0` where both are as near.
    /// In the wedge of a straight arc it is the foot of the perpendicular
    /// from `p`; in the wedge of a curved arc the point of the circle on the
    /// ray from the centre through `p`, and `p0` where `p` is the centre.
    pub open spec fn spec_nearest_point(&self, p: Point) -> Point {
        if !self.spec_in_wedge(p) || (self.d == 0 && self.spec_len2() == 0) {
            if spec_dist2(p, self.p0) <= spec_dist2(p, self.p1) {
                self.p0
            } else {
                self.p1
            }
        } else if self.d == 0 {
            Point {
                x: (self.p0.x + round_div(
                    (self.p1.x - self.p0.x) * self.spec_along(p),
                    self.spec_len2(),
                )) as i64,
                y: (self.p0.y + round_div(
                    (self.p1.y - self.p0.y) * self.spec_along(p),
                    self.spec_len2(),
                )) as i64,
            }
        } else {
            let sa = isqrt(self.spec_from_center2(p) as nat) as int;
            let sr = isqrt(self.spec_radius2() as nat) as int;
            let k = 4 * (self.d * CURVATURE_ONE);
            if sa == 0 {
                self.p0
            } else {
                Point {
                    x: round_div(
                        signed(k, self.spec_center_x() * sa + self.spec_from_center_x(p) * sr),
                        abs(k) * sa,
                    ) as i64,
                    y: round_div(
                        signed(k, self.spec_center_y() * sa + self.spec_from_center_y(p) * sr),
                        abs(k) * sa,
                    ) as i64,
                }
            }
        }
    }

    /// `p` lies on the arc: it is an end of the arc, or it lies in the wedge
    /// of the arc and on the line of the chord of a straight arc, or on the
    /// circle of a curved one.
    pub open spec fn spec_touches(&self, p: Point) -> bool {
        if !self.spec_in_wedge(p) || (self.d == 0 && self.spec_len2() == 0) {
            self.spec_end_dist2(p) == 0
        } else if self.d == 0 {
            self.spec_cross(p) == 0
        } else {
            self.spec_from_center2(p) == self.spec_radius2()
        }
    }

    /// A ray from `p` in the direction of the x axis crosses the chord. Of
    /// the two ends of the chord, the lower one counts as part of it.
    pub open spec fn spec_chord_crossed(&self, p: Point) -> bool {
        &&& (self.p0.y > p.y) != (self.p1.y > p.y)
        &&& if self.p1.y > self.p0.y {
            self.spec_cross(p) > 0
        } else {
            self.spec_cross(p) < 0
        }
    }

    /// On which side of the chord `p` lies: positive to the left, negative
    /// to the right. A point on the line of the chord counts as it would a
    /// little to the right of where it is, and above that where the chord is
    /// level, which is how `spec_chord_crossed` takes it too.
    pub open spec fn spec_side(&self, p: Point) -> int {
        if self.spec_cross(p) != 0 {
            self.spec_cross(p)
        } else if self.p1.y != self.p0.y {
            self.p0.y - self.p1.y
        } else {
            self.p1.x - self.p0.x
        }
    }

    /// `p` lies between the chord and the arc: inside the arc's circle, and
    /// on the side of the chord to which the arc bulges.
    pub open spec fn spec_in_lune(&self, p: Point) -> bool {
        &&& self.d != 0
        &&& self.spec_from_center2(p) < self.spec_radius2()
        &&& self.d * self.spec_side(p) < 0
    }

    /// The arc lies an odd number of times between `p` and the far end of a
    /// ray from `p` in the direction of the x axis.
    pub open spec fn spec_flips(&self, p: Point) -> bool {
        self.spec_chord_crossed(p) != self.spec_in_lune(p)
    }

    /// The squared length of the chord.
    pub fn len2(&self) -> (l: i128)
        requires
            self.wf(),
        ensures
            l == self.spec_len2(),
            0 <= l <= 8796093022208,
    {
        let cx: i128 = self.p1.x as i128 - self.p0.x as i128;
        let cy: i128 = self.p1.y as i128 - self.p0.y as i128;
        proof {
            lemma_square_bound(cx as int, 2097152);
            lemma_square_bound(cy as int, 2097152);
        }
        cx * cx + cy * cy
    }

    /// The cross product of the chord and the vector from `p0` to `p`.
    pub fn cross(&self, p: &Point) -> (c: i128)
        requires
            self.wf(),
            p.wf(),
        ensures
            c == self.spec_cross(*p),
            -8796093022208 <= c <= 8796093022208,
    {
        let cx: i128 = self.p1.x as i128 - self.p0.x as i128;
        let cy: i128 = self.p1.y as i128 - self.p0.y as i128;
        let px: i128 = p.x as i128 - self.p0.x as i128;
        let py: i128 = p.y as i128 - self.p0.y as i128;
        proof {
            lemma_mul_bound(cx as int, py as int, 2097152, 2097152);
            lemma_mul_bound(cy as int, px as int, 2097152, 2097152);
        }
        cx * py - cy * px
    }

    /// The squared distance from `p` to the nearer end of the arc.
    pub fn end_dist2(&self, p: &Point) -> (l: i128)
        requires
            self.wf(),
            p.wf(),
        ensures
            l == self.spec_end_dist2(*p),
            0 <= l <= 8796093022208,
    {
        let ax: i128 = p.x as i128 - self.p0.x as i128;
        let ay: i128 = p.y as i128 - self.p0.y as i128;
        let bx: i128 = p.x as i128 - self.p1.x as i128;
        let by: i128 = p.y as i128 - self.p1.y as i128;
        proof {
            lemma_square_bound(ax as int, 2097152);
            lemma_square_bound(ay as int, 2097152);
            lemma_square_bound(bx as int, 2097152);
            lemma_square_bound(by as int, 2097152);
        }
        let a2: i128 = ax * ax + ay * ay;
        let b2: i128 = bx * bx + by * by;
        if a2 < b2 {
            a2
        } else {
            b2
        }
    }

    /// The squared distance from the centre of the arc's circle to `p`,
    /// scaled as `spec_from_center2` says.
    pub fn from_center2(&self, p: &Point) -> (l: i128)
        requires
            self.wf(),
            p.wf(),
        ensures
            l == self.spec_from_center2(*p),
            0 <= l <= 2658455991569831745807614120560689152,
    {
        let n: i128 = self.d as i128;
        let unit: i128 = CURVATURE_ONE as i128;
        let cx: i128 = self.p1.x as i128 - self.p0.x as i128;
        let cy: i128 = self.p1.y as i128 - self.p0.y as i128;
        let qx: i128 = 2 * (p.x as i128) - self.p0.x as i128 - self.p1.x as i128;
        let qy: i128 = 2 * (p.y as i128) - self.p0.y as i128 - self.p1.y as i128;
        proof {
            lemma_square_bound(n as int, 524288);
        }
        let v: i128 = 2 * (n * unit);
        let u: i128 = unit * unit - n * n;
        proof {
            lemma_mul_bound(v as int, qx as int, 17179869184, 4194304);
            lemma_mul_bound(v as int, qy as int, 17179869184, 4194304);
            lemma_mul_bound(cx as int, u as int, 2097152, 274877906944);
            lemma_mul_bound(cy as int, u as int, 2097152, 274877906944);
        }
        let vx: i128 = v * qx + cy * u;
        let vy: i128 = v * qy - cx * u;
        proof {
            lemma_square_bound(vx as int, 1152921504606846976);
            lemma_square_bound(vy as int, 1152921504606846976);
        }
        vx * vx + vy * vy
    }

    /// The squared radius of the arc's circle, scaled as `spec_radius2` says.
    pub fn radius2(&self) -> (l: i128)
        requires
            self.wf(),
        ensures
            l == self.spec_radius2(),
            0 <= l <= 2658455991569831745807614120560689152,
    {
        let n: i128 = self.d as i128;
        let unit: i128 = CURVATURE_ONE as i128;
        proof {
            lemma_square_bound(n as int, 524288);
        }
        let g: i128 = unit * unit + n * n;
        proof {
            lemma_square_bound(g as int, 275146342400);
        }
        let gg: i128 = g * g;
        let l2: i128 = self.len2();
        proof {
            lemma_mul_bound(l2 as int, gg as int, 8796093022208, 75705509736098037760000);
            assert(0 <= l2 * gg) by (nonlinear_arith)
                requires
                    0 <= l2,
                    0 <= gg,
            ;
        }
        l2 * gg
    }

    /// Whether `p` lies in the wedge of the arc.
    pub fn in_wedge(&self, p: &Point) -> (b: bool)
        requires
            self.wf(),
            p.wf(),
        ensures
            b == self.spec_in_wedge(*p),
    {
        let n: i128 = self.d as i128;
        let unit: i128 = CURVATURE_ONE as i128;
        let cx: i128 = self.p1.x as i128 - self.p0.x as i128;
        let cy: i128 = self.p1.y as i128 - self.p0.y as i128;
        proof {
            lemma_square_bound(n as int, 524288);
        }
        let u: i128 = unit * unit - n * n;
        let v: i128 = 2 * (n * unit);
        proof {
            lemma_mul_bound(cx as int, u as int, 2097152, 274877906944);
            lemma_mul_bound(cy as int, u as int, 2097152, 274877906944);
            lemma_mul_bound(cx as int, v as int, 2097152, 17179869184);
            lemma_mul_bound(cy as int, v as int, 2097152, 17179869184);
        }
        let t0x: i128 = cx * u + cy * v;
        let t0y: i128 = cy * u - cx * v;
        let t1x: i128 = cx * u - cy * v;
        let t1y: i128 = cy * u + cx * v;
        let ax: i128 = p.x as i128 - self.p0.x as i128;
        let ay: i128 = p.y as i128 - self.p0.y as i128;
        let bx: i128 = p.x as i128 - self.p1.x as i128;
        let by: i128 = p.y as i128 - self.p1.y as i128;
        proof {
            lemma_mul_bound(ax as int, t0x as int, 2097152, 1152921504606846976);
            lemma_mul_bound(ay as int, t0y as int, 2097152, 1152921504606846976);
            lemma_mul_bound(bx as int, t1x as int, 2097152, 1152921504606846976);
            lemma_mul_bound(by as int, t1y as int, 2097152, 1152921504606846976);
        }
        if -CURVATURE_ONE <= self.d && self.d <= CURVATURE_ONE {
            ax * t0x + ay * t0y >= 0 && bx * t1x + by * t1y <= 0
        } else {
            ax * t0x + ay * t0y >= 0 || bx * t1x + by * t1y <= 0
        }
    }

    /// The distance from `p` to the arc, in whole lattice units.
    pub fn distance(&self, p: &Point) -> (dist: i64)
        requires
            self.wf(),
            p.wf(),
        ensures
            dist == self.spec_distance(*p),
            0 <= dist < SDF_INFINITY,
    {
        let l2: i128 = self.len2();
        if !self.in_wedge(p) || (self.d == 0 && l2 == 0) {
            let e2: i128 = self.end_dist2(p);
            let s: u128 = isqrt_u128(e2 as u128);
            proof {
                lemma_isqrt_below(e2 as nat, s as nat, 4194304);
            }
            s as i64
        } else if self.d == 0 {
            let c: i128 = self.cross(p);
            proof {
                lemma_square_bound(c as int, 8796093022208);
            }
            let q: i128 = div_floor(c * c, l2);
            let s: u128 = isqrt_u128(q as u128);
            proof {
                lemma_isqrt_below(q as nat, s as nat, 8796093022209);
            }
            s as i64
        } else {
            let a2: i128 = self.from_center2(p);
            let r2: i128 = self.radius2();
            let sa: u128 = isqrt_u128(a2 as u128);
            let sr: u128 = isqrt_u128(r2 as u128);
            proof {
                lemma_isqrt_below(a2 as nat, sa as nat, 2305843009213693952);
                lemma_isqrt_below(r2 as nat, sr as nat, 2305843009213693952);
            }
            let diff: i128 = if sa >= sr {
                (sa - sr) as i128
            } else {
                (sr - sa) as i128
            };
            let nd: i128 = (self.d as i128) * (CURVATURE_ONE as i128);
            let k: i128 = 4 * (if nd < 0 {
                -nd
            } else {
                nd
            });
            let q: i128 = div_floor(diff, k);
            q as i64
        }
    }

    /// Whether `p` lies on the arc.
    pub fn touches(&self, p: &Point) -> (on: bool)
        requires
            self.wf(),
            p.wf(),
        ensures
            on == self.spec_touches(*p),
    {
        let l2: i128 = self.len2();
        if !self.in_wedge(p) || (self.d == 0 && l2 == 0) {
            self.end_dist2(p) == 0
        } else if self.d == 0 {
            self.cross(p) == 0
        } else {
            self.from_center2(p) == self.radius2()
        }
    }

    /// The point of the arc that is nearest to `p`, rounded to the lattice.
    pub fn nearest_point(&self, p: &Point) -> (q: Point)
        requires
            self.wf(),
            p.wf(),
        ensures
            q == self.spec_nearest_point(*p),
    {
        let l2: i128 = self.len2();
        let cx: i128 = self.p1.x as i128 - self.p0.x as i128;
        let cy: i128 = self.p1.y as i128 - self.p0.y as i128;
        let ax: i128 = p.x as i128 - self.p0.x as i128;
        let ay: i128 = p.y as i128 - self.p0.y as i128;
        if !self.in_wedge(p) || (self.d == 0 && l2 == 0) {
            let bx: i128 = p.x as i128 - self.p1.x as i128;
            let by: i128 = p.y as i128 - self.p1.y as i128;
            proof {
                lemma_square_bound(ax as int, 2097152);
                lemma_square_bound(ay as int, 2097152);
                lemma_square_bound(bx as int, 2097152);
                lemma_square_bound(by as int, 2097152);
            }
            if ax * ax + ay * ay <= bx * bx + by * by {
                self.p0
            } else {
                self.p1
            }
        } else if self.d == 0 {
            proof {
                lemma_mul_bound(ax as int, cx as int, 2097152, 2097152);
                lemma_mul_bound(ay as int, cy as int, 2097152, 2097152);
            }
            let along: i128 = ax * cx + ay * cy;
            proof {
                lemma_mul_bound(cx as int, along as int, 2097152, 8796093022208);
                lemma_mul_bound(cy as int, along as int, 2097152, 8796093022208);
                self.lemma_foot_on_chord(*p);
            }
            let ox: i128 = div_round(cx * along, l2);
            let oy: i128 = div_round(cy * along, l2);
            Point { x: (self.p0.x as i128 + ox) as i64, y: (self.p0.y as i128 + oy) as i64 }
        } else {
            let a2: i128 = self.from_center2(p);
            let r2: i128 = self.radius2();
            let sa: u128 = isqrt_u128(a2 as u128);
            let sr: u128 = isqrt_u128(r2 as u128);
            proof {
                lemma_isqrt_below(a2 as nat, sa as nat, 2305843009213693952);
                lemma_isqrt_below(r2 as nat, sr as nat, 2305843009213693952);
            }
            if sa == 0 {
                return self.p0;
            }
            let n: i128 = self.d as i128;
            let unit: i128 = CURVATURE_ONE as i128;
            let qx: i128 = 2 * (p.x as i128) - self.p0.x as i128 - self.p1.x as i128;
            let qy: i128 = 2 * (p.y as i128) - self.p0.y as i128 - self.p1.y as i128;
            let sx: i128 = self.p0.x as i128 + self.p1.x as i128;
            let sy: i128 = self.p0.y as i128 + self.p1.y as i128;
            proof {
                lemma_square_bound(n as int, 524288);
            }
            let v: i128 = 2 * (n * unit);
            let u: i128 = unit * unit - n * n;
            proof {
                lemma_mul_bound(v as int, qx as int, 17179869184, 4194304);
                lemma_mul_bound(v as int, qy as int, 17179869184, 4194304);
                lemma_mul_bound(v as int, sx as int, 17179869184, 2097152);
                lemma_mul_bound(v as int, sy as int, 17179869184, 2097152);
                lemma_mul_bound(cx as int, u as int, 2097152, 274877906944);
                lemma_mul_bound(cy as int, u as int, 2097152, 274877906944);
            }
            let vx: i128 = v * qx + cy * u;
            let vy: i128 = v * qy - cx * u;
            let gx: i128 = v * sx - cy * u;
            let gy: i128 = v * sy + cx * u;
            let k: i128 = 4 * (n * unit);
            let ka: i128 = if k < 0 {
                -k
            } else {
                k
            };
            let sa_i: i128 = sa as i128;
            let sr_i: i128 = sr as i128;
            proof {
                lemma_component_below_root(vx as int, vy as int, sa as nat);
                lemma_mul_bound(gx as int, sa_i as int, 1152921504606846976, 2305843009213693952);
                lemma_mul_bound(gy as int, sa_i as int, 1152921504606846976, 2305843009213693952);
                lemma_mul_bound(vx as int, sr_i as int, 1152921504606846976, 2305843009213693952);
                lemma_mul_bound(vy as int, sr_i as int, 1152921504606846976, 2305843009213693952);
                lemma_mul_bound(ka as int, sa_i as int, 34359738368, 2305843009213693952);
                assert(ka >= 65536) by (nonlinear_arith)
                    requires
                        ka == 4 * (n * unit) || ka == -(4 * (n * unit)),
                        ka >= 0,
                        n != 0,
                        unit == 16384,
                ;
                assert(ka * sa_i > 0) by (nonlinear_arith)
                    requires
                        ka >= 65536,
                        sa_i > 0,
                ;
                lemma_on_circle_bound(gx as int, vx as int, sa_i as int, sr_i as int, ka as int);
                lemma_on_circle_bound(gy as int, vy as int, sa_i as int, sr_i as int, ka as int);
            }
            let den: i128 = ka * sa_i;
            let num_x: i128 = gx * sa_i + vx * sr_i;
            let num_y: i128 = gy * sa_i + vy * sr_i;
            let x: i128 = div_round(
                if k < 0 {
                    -num_x
                } else {
                    num_x
                },
                den,
            );
            let y: i128 = div_round(
                if k < 0 {
                    -num_y
                } else {
                    num_y
                },
                den,
            );
            Point { x: x as i64, y: y as i64 }
        }
    }

    /// In the wedge of a straight arc the foot of the perpendicular lies on
    /// the chord, so its offset from `p0` is bounded by the chord.
    pub proof fn lemma_foot_on_chord(&self, p: Point)
        requires
            self.wf(),
            p.wf(),
            self.d == 0,
            self.spec_len2() > 0,
            self.spec_in_wedge(p),
        ensures
            0 <= self.spec_along(p) <= self.spec_len2(),
            -2097152 <= round_div(
                (self.p1.x - self.p0.x) * self.spec_along(p),
                self.spec_len2(),
            ) <= 2097152,
            -2097152 <= round_div(
                (self.p1.y - self.p0.y) * self.spec_along(p),
                self.spec_len2(),
            ) <= 2097152,
    {
        let cx = self.p1.x - self.p0.x;
        let cy = self.p1.y - self.p0.y;
        let ax = p.x - self.p0.x;
        let ay = p.y - self.p0.y;
        let bx = p.x - self.p1.x;
        let by = p.y - self.p1.y;
        let l2 = self.spec_len2();
        let along = self.spec_along(p);
        assert(ax * (cx * 268435456 + cy * 0) + ay * (cy * 268435456 - cx * 0) == 268435456 * (ax
            * cx + ay * cy)) by (nonlinear_arith);
        assert(bx * (cx * 268435456 - cy * 0) + by * (cy * 268435456 + cx * 0) == 268435456 * (bx
            * cx + by * cy)) by (nonlinear_arith);
        assert(bx * cx + by * cy == along - l2) by (nonlinear_arith)
            requires
                bx == ax - cx,
                by == ay - cy,
                along == ax * cx + ay * cy,
                l2 == cx * cx + cy * cy,
        ;
        assert(0 <= along <= l2);
        assert(-(2097152 * l2) <= cx * along <= 2097152 * l2) by (nonlinear_arith)
            requires
                0 <= along <= l2,
                -2097152 <= cx <= 2097152,
        ;
        assert(-(2097152 * l2) <= cy * along <= 2097152 * l2) by (nonlinear_arith)
            requires
                0 <= along <= l2,
                -2097152 <= cy <= 2097152,
        ;
        lemma_round_div_bound(cx * along, l2, 2097152);
        lemma_round_div_bound(cy * along, l2, 2097152);
    }

    /// Whether the arc lies an odd number of times between `p` and the far
    /// end of a ray from `p` in the direction of the x axis.
    pub fn flips(&self, p: &Point) -> (b: bool)
        requires
            self.wf(),
            p.wf(),
        ensures
            b == self.spec_flips(*p),
    {
        let c: i128 = self.cross(p);
        let crossed: bool = ((self.p0.y > p.y) != (self.p1.y > p.y)) && (if self.p1.y
            > self.p0.y {
            c > 0
        } else {
            c < 0
        });
        let in_lune: bool = if self.d == 0 {
            false
        } else {
            let a2: i128 = self.from_center2(p);
            let r2: i128 = self.radius2();
            let side: i128 = if c != 0 {
                c
            } else if self.p1.y != self.p0.y {
                self.p0.y as i128 - self.p1.y as i128
            } else {
                self.p1.x as i128 - self.p0.x as i128
            };
            proof {
                lemma_mul_bound(self.d as int, side as int, 524288, 8796093022208);
            }
            a2 < r2 && (self.d as i128) * side < 0
        };
        crossed != in_lune
    }
}

/// A component of a vector is no longer than the vector.
pub proof fn lemma_component_below_root(vx: int, vy: int, s: nat)
    requires
        is_isqrt((vx * vx + vy * vy) as nat, s),
    ensures
        -s <= vx <= s,
        -s <= vy <= s,
{
    assert(vx * vx + vy * vy >= 0) by (nonlinear_arith);
    assert(-s <= vx <= s && -s <= vy <= s) by (nonlinear_arith)
        requires
            vx * vx + vy * vy < (s + 1) * (s + 1),
            s >= 0,
    ;
}

/// The coordinate of the point of the circle below `p` stays small: with `g`
/// the centre, `v` the component of the vector from the centre to `p`, `sa`
/// the length of that vector and `sr` the radius, all on the scale `ka`.
pub proof fn lemma_on_circle_bound(g: int, v: int, sa: int, sr: int, ka: int)
    requires
        -1152921504606846976 <= g <= 1152921504606846976,
        -sa <= v <= sa,
        0 < sa,
        0 <= sr < 2305843009213693952,
        65536 <= ka,
    ensures
        -70368744177664 <= round_div(g * sa + v * sr, ka * sa) <= 70368744177664,
        -70368744177664 <= round_div(-(g * sa + v * sr), ka * sa) <= 70368744177664,
{
    let num = g * sa + v * sr;
    let den = ka * sa;
    assert(den > 0) by (nonlinear_arith)
        requires
            den == ka * sa,
            ka >= 65536,
            sa > 0,
    ;
    assert(-(1152921504606846976 * sa) <= g * sa <= 1152921504606846976 * sa) by (nonlinear_arith)
        requires
            -1152921504606846976 <= g <= 1152921504606846976,
            sa > 0,
    ;
    assert(-(2305843009213693952 * sa) <= v * sr <= 2305843009213693952 * sa) by (nonlinear_arith)
        requires
            -sa <= v <= sa,
            0 <= sr <= 2305843009213693952,
    ;
    assert(70368744177664 * den >= 4611686018427387904 * sa) by (nonlinear_arith)
        requires
            den == ka * sa,
            ka >= 65536,
            sa > 0,
    ;
    lemma_round_div_bound(num, den, 70368744177664);
    lemma_round_div_bound(-num, den, 70368744177664);
}

/// A square root stays below whatever bounds the square.
pub proof fn lemma_isqrt_below(n: nat, s: nat, m: nat)
    requires
        is_isqrt(n, s),
        n < m * m,
    ensures
        s < m,
{
    if s >= m {
        assert(s * s >= m * m) by (nonlinear_arith)
            requires
                s >= m,
        ;
    }
}

/// The least of the distances from `p` to the arcs; `SDF_INFINITY` for no arcs.
pub open spec fn spec_min_distance(arcs: Seq<Arc>, p: Point) -> int
    decreases arcs.len(),
{
    if arcs.len() == 0 {
        SDF_INFINITY as int
    } else {
        lower(spec_min_distance(arcs.drop_last(), p), arcs.last().spec_distance(p))
    }
}

/// `p` lies inside the region that the arcs bound: an odd number of them
/// lies between `p` and the far end of a ray from `p`.
pub open spec fn spec_inside(arcs: Seq<Arc>, p: Point) -> bool
    decreases arcs.len(),
{
    if arcs.len() == 0 {
        false
    } else {
        spec_inside(arcs.drop_last(), p) != arcs.last().spec_flips(p)
    }
}

/// The index of the arc that is nearest to `p`, the first of them where
/// several are as near; `-1` for no arcs.
pub open spec fn spec_nearest_index(arcs: Seq<Arc>, p: Point) -> int
    decreases arcs.len(),
{
    if arcs.len() == 0 {
        -1
    } else {
        let before = spec_nearest_index(arcs.drop_last(), p);
        if before >= 0 && spec_min_distance(arcs.drop_last(), p) <= arcs.last().spec_distance(p) {
            before
        } else {
            arcs.len() - 1
        }
    }
}

/// The point of the arcs that is nearest to `p`: the nearest point of the
/// nearest arc.
pub open spec fn spec_closest_point(arcs: Seq<Arc>, p: Point) -> Point {
    arcs[spec_nearest_index(arcs, p)].spec_nearest_point(p)
}

/// `p` lies on one of the arcs.
pub open spec fn spec_on_arcs(arcs: Seq<Arc>, p: Point) -> bool
    decreases arcs.len(),
{
    if arcs.len() == 0 {
        false
    } else {
        spec_on_arcs(arcs.drop_last(), p) || arcs.last().spec_touches(p)
    }
}

/// The magnitude of a signed distance, from the least distance `least` to
/// the arcs: the least distance in whole lattice units rounded down, but one
/// where that would give zero for a point that lies on none of the arcs.
/// So the magnitude is zero on the arcs and nowhere else.
pub open spec fn spec_magnitude(least: int, arcs: Seq<Arc>, p: Point) -> int {
    if least == 0 && !spec_on_arcs(arcs, p) {
        1
    } else {
        least
    }
}

/// The signed distance from `p` to the arcs: the magnitude of the least
/// distance, negative where `p` is inside.
pub open spec fn spec_sdf_arcs(arcs: Seq<Arc>, p: Point) -> int {
    if spec_inside(arcs, p) {
        -spec_magnitude(spec_min_distance(arcs, p), arcs, p)
    } else {
        spec_magnitude(spec_min_distance(arcs, p), arcs, p)
    }
}

/// The signed distance from `p` to the arc list.
pub open spec fn spec_sdf(list: Seq<ArcEndpoint>, p: Point) -> int {
    spec_sdf_arcs(spec_arcs(list), p)
}

/// The least distance is the distance to one of the arcs, and no arc is
/// nearer.
pub proof fn lemma_min_distance_is_least(arcs: Seq<Arc>, p: Point)
    requires
        arcs_wf(arcs),
        p.wf(),
        arcs.len() > 0,
    ensures
        forall|i: int|
            0 <= i < arcs.len() ==> spec_min_distance(arcs, p) <= (#[trigger] arcs[i]).spec_distance(
                p,
            ),
        exists|i: int|
            0 <= i < arcs.len() && spec_min_distance(arcs, p) == (#[trigger] arcs[i]).spec_distance(
                p,
            ),
    decreases arcs.len(),
{
    let rest = arcs.drop_last();
    let last = arcs.len() - 1;
    assert(arcs[last].wf());
    if rest.len() > 0 {
        assert(arcs_wf(rest)) by {
            assert forall|j: int| 0 <= j < rest.len() implies (#[trigger] rest[j]).wf() by {
                assert(rest[j] == arcs[j]);
            }
        }
        lemma_min_distance_is_least(rest, p);
        let j = choose|j: int|
            0 <= j < rest.len() && spec_min_distance(rest, p) == (#[trigger] rest[j]).spec_distance(
                p,
            );
        assert(rest[j] == arcs[j]);
        assert forall|i: int| 0 <= i < arcs.len() implies spec_min_distance(arcs, p) <= (
        #[trigger] arcs[i]).spec_distance(p) by {
            if i < rest.len() {
                assert(rest[i] == arcs[i]);
            }
        }
        if spec_min_distance(arcs, p) == arcs[last].spec_distance(p) {
        } else {
            assert(spec_min_distance(arcs, p) == arcs[j].spec_distance(p));
        }
    } else {
        lemma_distance_finite(arcs[last], p);
        assert(spec_min_distance(rest, p) == SDF_INFINITY);
        assert(spec_min_distance(arcs, p) == arcs[last].spec_distance(p));
    }
}

/// The distance from a point in range to a well-formed arc is not negative
/// and less than `SDF_INFINITY`.
pub proof fn lemma_distance_finite(arc: Arc, p: Point)
    requires
        arc.wf(),
        p.wf(),
    ensures
        0 <= arc.spec_distance(p) < SDF_INFINITY,
{
    let cx = arc.p1.x - arc.p0.x;
    let cy = arc.p1.y - arc.p0.y;
    if !arc.spec_in_wedge(p) || (arc.d == 0 && arc.spec_len2() == 0) {
        lemma_square_bound(p.x - arc.p0.x, 2097152);
        lemma_square_bound(p.y - arc.p0.y, 2097152);
        lemma_square_bound(p.x - arc.p1.x, 2097152);
        lemma_square_bound(p.y - arc.p1.y, 2097152);
        let e2 = arc.spec_end_dist2(p) as nat;
        lemma_isqrt_exists(e2);
        lemma_isqrt_below(e2, isqrt(e2), 4194304);
    } else if arc.d == 0 {
        let c = arc.spec_cross(p);
        let l2 = arc.spec_len2();
        lemma_square_bound(cx, 2097152);
        lemma_square_bound(cy, 2097152);
        lemma_mul_bound(cx, p.y - arc.p0.y, 2097152, 2097152);
        lemma_mul_bound(cy, p.x - arc.p0.x, 2097152, 2097152);
        lemma_square_bound(c, 8796093022208);
        lemma_quotient_bounded(c * c, l2);
        let q = ((c * c) / l2) as nat;
        lemma_isqrt_exists(q);
        lemma_isqrt_below(q, isqrt(q), 8796093022209);
    } else {
        let n = arc.d as int;
        let k = 4 * abs(n * CURVATURE_ONE);
        lemma_square_bound(n, 524288);
        let v = 2 * (n * CURVATURE_ONE);
        let u = CURVATURE_ONE * CURVATURE_ONE - n * n;
        lemma_mul_bound(v, 2 * p.x - arc.p0.x - arc.p1.x, 17179869184, 4194304);
        lemma_mul_bound(v, 2 * p.y - arc.p0.y - arc.p1.y, 17179869184, 4194304);
        lemma_mul_bound(cx, u, 2097152, 274877906944);
        lemma_mul_bound(cy, u, 2097152, 274877906944);
        lemma_square_bound(arc.spec_from_center_x(p), 1152921504606846976);
        lemma_square_bound(arc.spec_from_center_y(p), 1152921504606846976);
        let g = CURVATURE_ONE * CURVATURE_ONE + n * n;
        lemma_square_bound(g, 275146342400);
        lemma_square_bound(cx, 2097152);
        lemma_square_bound(cy, 2097152);
        lemma_mul_bound(arc.spec_len2(), g * g, 8796093022208, 75705509736098037760000);
        assert(0 <= arc.spec_len2() * (g * g)) by (nonlinear_arith)
            requires
                0 <= arc.spec_len2(),
                0 <= g * g,
        ;
        let a2 = arc.spec_from_center2(p) as nat;
        let r2 = arc.spec_radius2() as nat;
        lemma_isqrt_exists(a2);
        lemma_isqrt_exists(r2);
        lemma_isqrt_below(a2, isqrt(a2), 2305843009213693952);
        lemma_isqrt_below(r2, isqrt(r2), 2305843009213693952);
        lemma_quotient_bounded(abs(isqrt(a2) - isqrt(r2)), k);
    }
}

/// What the distance to an arc is, case by case: the distance to the nearer
/// end, or to the line of the chord, rounded down to a whole number of
/// lattice units; or the whole multiples of the unit in the difference
/// between the rounded-down scaled radius and the rounded-down scaled
/// distance to the centre.
pub proof fn lemma_distance_is_rounded_down(arc: Arc, p: Point)
    ensures
        ({
            let e = arc.spec_distance(p);
            let at_end = !arc.spec_in_wedge(p) || (arc.d == 0 && arc.spec_len2() == 0);
            let unit = 4 * abs(arc.d * CURVATURE_ONE);
            let gap = abs(
                isqrt(arc.spec_from_center2(p) as nat) - isqrt(arc.spec_radius2() as nat),
            );
            &&& e >= 0
            &&& at_end ==> e * e <= arc.spec_end_dist2(p) < (e + 1) * (e + 1)
            &&& !at_end && arc.d == 0 ==> (e * e) * arc.spec_len2() <= arc.spec_cross(p)
                * arc.spec_cross(p) < ((e + 1) * (e + 1)) * arc.spec_len2()
            &&& !at_end && arc.d != 0 ==> e * unit <= gap < (e + 1) * unit
        }),
{
    let e = arc.spec_distance(p);
    let cx = arc.p1.x - arc.p0.x;
    let cy = arc.p1.y - arc.p0.y;
    if !arc.spec_in_wedge(p) || (arc.d == 0 && arc.spec_len2() == 0) {
        let ax = p.x - arc.p0.x;
        let ay = p.y - arc.p0.y;
        let bx = p.x - arc.p1.x;
        let by = p.y - arc.p1.y;
        assert(ax * ax + ay * ay >= 0 && bx * bx + by * by >= 0) by (nonlinear_arith);
        lemma_isqrt_exists(arc.spec_end_dist2(p) as nat);
    } else if arc.d == 0 {
        let c = arc.spec_cross(p);
        let l2 = arc.spec_len2();
        assert(c * c >= 0 && cx * cx + cy * cy >= 0) by (nonlinear_arith);
        lemma_quotient_bounded(c * c, l2);
        let q = (c * c) / l2;
        lemma_isqrt_exists(q as nat);
        vstd::arithmetic::div_mod::lemma_fundamental_div_mod(c * c, l2);
        assert((e * e) * l2 <= c * c && c * c < ((e + 1) * (e + 1)) * l2) by (nonlinear_arith)
            requires
                c * c == l2 * q + (c * c) % l2,
                0 <= (c * c) % l2 < l2,
                e * e <= q,
                q < (e + 1) * (e + 1),
        ;
    } else {
        let unit = 4 * abs(arc.d * CURVATURE_ONE);
        let gap = abs(
            isqrt(arc.spec_from_center2(p) as nat) - isqrt(arc.spec_radius2() as nat),
        );
        assert(unit > 0) by (nonlinear_arith)
            requires
                unit == 4 * abs(arc.d * CURVATURE_ONE),
                arc.d != 0,
                CURVATURE_ONE == 16384,
        ;
        vstd::arithmetic::div_mod::lemma_fundamental_div_mod(gap, unit);
        assert(e >= 0 && e * unit <= gap && gap < (e + 1) * unit) by (nonlinear_arith)
            requires
                gap == unit * e + gap % unit,
                0 <= gap % unit < unit,
                gap >= 0,
                unit > 0,
        ;
    }
}

/// A quotient of a number that is not negative by a positive one lies
/// between zero and the number.
pub proof fn lemma_quotient_bounded(a: int, b: int)
    requires
        a >= 0,
        b > 0,
    ensures
        0 <= a / b <= a,
{
    vstd::arithmetic::div_mod::lemma_fundamental_div_mod(a, b);
    assert(0 <= a / b <= a) by (nonlinear_arith)
        requires
            a == b * (a / b) + a % b,
            0 <= a % b < b,
            a >= 0,
            b > 0,
    ;
}

/// Contours are put together by their parity: a point lies inside two
/// sequences of arcs taken together where it lies inside the one and not
/// inside the other. A contour within another so cuts a hole, and a point in
/// the hole is outside.
pub proof fn lemma_inside_of_two(first: Seq<Arc>, second: Seq<Arc>, p: Point)
    ensures
        spec_inside(first + second, p) == (spec_inside(first, p) != spec_inside(second, p)),
    decreases second.len(),
{
    if second.len() == 0 {
        assert(first + second == first);
    } else {
        let both = first + second;
        assert(both.drop_last() == first + second.drop_last());
        assert(both.last() == second.last());
        lemma_inside_of_two(first, second.drop_last(), p);
    }
}

/// The same of two arc lists, the second of which starts with a contour of
/// its own: a point lies inside the lists taken together where it lies
/// inside exactly one of them, and the signed distance of the lists taken
/// together has the magnitude of the nearer of the two.
pub proof fn lemma_inside_of_two_lists(
    first: Seq<ArcEndpoint>,
    second: Seq<ArcEndpoint>,
    p: Point,
)
    requires
        second.len() > 0 ==> second[0].is_move_to(),
    ensures
        spec_inside(spec_arcs(first + second), p) == (spec_inside(spec_arcs(first), p)
            != spec_inside(spec_arcs(second), p)),
        spec_min_distance(spec_arcs(first + second), p) == lower(
            spec_min_distance(spec_arcs(first), p),
            spec_min_distance(spec_arcs(second), p),
        ),
{
    crate::arc_list::lemma_arcs_of_two(first, second);
    lemma_inside_of_two(spec_arcs(first), spec_arcs(second), p);
    lemma_min_distance_of_two(spec_arcs(first), spec_arcs(second), p);
}

/// The least distance to two sequences of arcs taken together is the lesser
/// of the least distances to the two.
pub proof fn lemma_min_distance_of_two(first: Seq<Arc>, second: Seq<Arc>, p: Point)
    ensures
        spec_min_distance(first + second, p) == lower(
            spec_min_distance(first, p),
            spec_min_distance(second, p),
        ),
    decreases second.len(),
{
    if second.len() == 0 {
        assert(first + second == first);
        lemma_min_distance_bounded(first, p);
    } else {
        let both = first + second;
        assert(both.drop_last() == first + second.drop_last());
        assert(both.last() == second.last());
        lemma_min_distance_of_two(first, second.drop_last(), p);
    }
}

/// The least distance is never more than the sentinel.
pub proof fn lemma_min_distance_bounded(arcs: Seq<Arc>, p: Point)
    ensures
        spec_min_distance(arcs, p) <= SDF_INFINITY,
    decreases arcs.len(),
{
    if arcs.len() > 0 {
        lemma_min_distance_bounded(arcs.drop_last(), p);
    }
}

/// The signed distance and the nearest point depend on nothing but the
/// endpoints of the list and the point: two lists that hold the same
/// endpoints in the same order give the same results at the same point.
pub proof fn lemma_sdf_depends_on_inputs_alone(
    first: Seq<ArcEndpoint>,
    second: Seq<ArcEndpoint>,
    p: Point,
    q: Point,
)
    requires
        first.len() == second.len(),
        forall|i: int| 0 <= i < first.len() ==> first[i] == second[i],
        p == q,
    ensures
        spec_sdf(first, p) == spec_sdf(second, q),
        spec_inside(spec_arcs(first), p) == spec_inside(spec_arcs(second), q),
        spec_closest_point(spec_arcs(first), p) == spec_closest_point(spec_arcs(second), q),
{
    assert(first =~= second);
}

/// The least of the distances from `p` to `arcs`.
pub fn min_distance(arcs: &[Arc], p: &Point) -> (dist: i64)
    requires
        arcs_wf(arcs@),
        p.wf(),
    ensures
        dist == spec_min_distance(arcs@, *p),
        0 <= dist,
        arcs@.len() > 0 ==> dist < SDF_INFINITY,
{
    let mut dist: i64 = SDF_INFINITY;
    let mut i: usize = 0;
    while i < arcs.len()
        invariant
            0 <= i <= arcs.len(),
            arcs_wf(arcs@),
            p.wf(),
            dist == spec_min_distance(arcs@.subrange(0, i as int), *p),
            0 <= dist,
            i > 0 ==> dist < SDF_INFINITY,
        decreases arcs.len() - i,
    {
        let one: i64 = arcs[i].distance(p);
        proof {
            let upto = arcs@.subrange(0, i + 1);
            assert(upto.drop_last() == arcs@.subrange(0, i as int));
            assert(upto.last() == arcs@[i as int]);
        }
        if one < dist {
            dist = one;
        }
        i += 1;
    }
    assert(arcs@.subrange(0, i as int) == arcs@);
    dist
}

/// The index of the arc of `arcs` that is nearest to `p`.
pub fn nearest_index(arcs: &[Arc], p: &Point) -> (index: usize)
    requires
        arcs_wf(arcs@),
        p.wf(),
        arcs@.len() > 0,
    ensures
        index == spec_nearest_index(arcs@, *p),
        index < arcs@.len(),
        arcs@[index as int].spec_distance(*p) == spec_min_distance(arcs@, *p),
{
    let mut index: usize = 0;
    let mut dist: i64 = arcs[0].distance(p);
    proof {
        let one = arcs@.subrange(0, 1);
        assert(one.drop_last() == Seq::<Arc>::empty());
        assert(one.last() == arcs@[0]);
        assert(spec_min_distance(one.drop_last(), *p) == SDF_INFINITY);
        assert(spec_nearest_index(one.drop_last(), *p) == -1);
    }
    let mut i: usize = 1;
    while i < arcs.len()
        invariant
            1 <= i <= arcs.len(),
            arcs_wf(arcs@),
            p.wf(),
            index < i,
            index == spec_nearest_index(arcs@.subrange(0, i as int), *p),
            dist == spec_min_distance(arcs@.subrange(0, i as int), *p),
            dist == arcs@[index as int].spec_distance(*p),
        decreases arcs.len() - i,
    {
        let one: i64 = arcs[i].distance(p);
        proof {
            let upto = arcs@.subrange(0, i + 1);
            assert(upto.drop_last() == arcs@.subrange(0, i as int));
            assert(upto.last() == arcs@[i as int]);
        }
        if one < dist {
            dist = one;
            index = i;
        }
        i += 1;
    }
    assert(arcs@.subrange(0, i as int) == arcs@);
    index
}

/// The point of `arcs` that is nearest to `p`; none for no arcs.
pub fn closest_point_on_arcs(arcs: &[Arc], p: &Point) -> (closest: Option<Point>)
    requires
        arcs_wf(arcs@),
        p.wf(),
    ensures
        arcs@.len() == 0 ==> closest.is_none(),
        arcs@.len() > 0 ==> closest == Some(spec_closest_point(arcs@, *p)),
{
    if arcs.len() == 0 {
        None
    } else {
        let index: usize = nearest_index(arcs, p);
        Some(arcs[index].nearest_point(p))
    }
}

/// Whether `p` lies inside the region that `arcs` bound.
pub fn inside_arcs(arcs: &[Arc], p: &Point) -> (inside: bool)
    requires
        arcs_wf(arcs@),
        p.wf(),
    ensures
        inside == spec_inside(arcs@, *p),
{
    let mut inside: bool = false;
    let mut i: usize = 0;
    while i < arcs.len()
        invariant
            0 <= i <= arcs.len(),
            arcs_wf(arcs@),
            p.wf(),
            inside == spec_inside(arcs@.subrange(0, i as int), *p),
        decreases arcs.len() - i,
    {
        let flip: bool = arcs[i].flips(p);
        proof {
            let upto = arcs@.subrange(0, i + 1);
            assert(upto.drop_last() == arcs@.subrange(0, i as int));
            assert(upto.last() == arcs@[i as int]);
        }
        inside = inside != flip;
        i += 1;
    }
    assert(arcs@.subrange(0, i as int) == arcs@);
    inside
}

/// The signed distance from `p` to `arcs`: negative inside, positive
/// outside, `SDF_INFINITY` for no arcs.
pub fn sdf_from_arcs(arcs: &[Arc], p: &Point) -> (dist: i64)
    requires
        arcs_wf(arcs@),
        p.wf(),
    ensures
        dist == spec_sdf_arcs(arcs@, *p),
        arcs@.len() == 0 ==> dist == SDF_INFINITY,
        spec_on_arcs(arcs@, *p) ==> dist == 0,
        !spec_on_arcs(arcs@, *p) && spec_inside(arcs@, *p) ==> dist <= -1,
        !spec_on_arcs(arcs@, *p) && !spec_inside(arcs@, *p) ==> dist >= 1,
{
    let least: i64 = min_distance(arcs, p);
    proof {
        lemma_on_arcs_is_zero(arcs@, *p);
    }
    let dist: i64 = if least == 0 && !on_arcs(arcs, p) {
        1
    } else {
        least
    };
    if inside_arcs(arcs, p) {
        -dist
    } else {
        dist
    }
}

/// Whether `p` lies on one of `arcs`.
pub fn on_arcs(arcs: &[Arc], p: &Point) -> (on: bool)
    requires
        arcs_wf(arcs@),
        p.wf(),
    ensures
        on == spec_on_arcs(arcs@, *p),
{
    let mut on: bool = false;
    let mut i: usize = 0;
    while i < arcs.len()
        invariant
            0 <= i <= arcs.len(),
            arcs_wf(arcs@),
            p.wf(),
            on == spec_on_arcs(arcs@.subrange(0, i as int), *p),
        decreases arcs.len() - i,
    {
        let one: bool = arcs[i].touches(p);
        proof {
            let upto = arcs@.subrange(0, i + 1);
            assert(upto.drop_last() == arcs@.subrange(0, i as int));
            assert(upto.last() == arcs@[i as int]);
        }
        on = on || one;
        i += 1;
    }
    assert(arcs@.subrange(0, i as int) == arcs@);
    on
}

/// A point on an arc has the distance zero to it.
pub proof fn lemma_touch_is_zero(arc: Arc, p: Point)
    requires
        arc.spec_touches(p),
    ensures
        arc.spec_distance(p) == 0,
{
    assert(is_isqrt(0, 0)) by (nonlinear_arith);
    crate::numeric::lemma_isqrt_is(0, 0);
    if !arc.spec_in_wedge(p) || (arc.d == 0 && arc.spec_len2() == 0) {
    } else if arc.d == 0 {
        let c = arc.spec_cross(p);
        assert(c * c == 0) by (nonlinear_arith)
            requires
                c == 0,
        ;
        let cx = arc.p1.x - arc.p0.x;
        let cy = arc.p1.y - arc.p0.y;
        assert(cx * cx + cy * cy >= 0) by (nonlinear_arith);
        lemma_quotient_bounded(0, arc.spec_len2());
    } else {
        let k = 4 * abs(arc.d * CURVATURE_ONE);
        assert(k > 0) by (nonlinear_arith)
            requires
                k == 4 * abs(arc.d * CURVATURE_ONE),
                arc.d != 0,
                CURVATURE_ONE == 16384,
        ;
        lemma_quotient_bounded(0, k);
    }
}

/// A point on one of the arcs has the least distance zero to them.
pub proof fn lemma_on_arcs_is_zero(arcs: Seq<Arc>, p: Point)
    requires
        arcs_wf(arcs),
        p.wf(),
    ensures
        spec_min_distance(arcs, p) >= 0,
        spec_on_arcs(arcs, p) ==> spec_min_distance(arcs, p) == 0,
    decreases arcs.len(),
{
    if arcs.len() > 0 {
        let rest = arcs.drop_last();
        assert(arcs_wf(rest)) by {
            assert forall|j: int| 0 <= j < rest.len() implies (#[trigger] rest[j]).wf() by {
                assert(rest[j] == arcs[j]);
            }
        }
        assert(arcs.last() == arcs[arcs.len() - 1]);
        lemma_on_arcs_is_zero(rest, p);
        lemma_distance_finite(arcs.last(), p);
        if arcs.last().spec_touches(p) {
            lemma_touch_is_zero(arcs.last(), p);
        }
    }
}

/// Whether `p` lies inside the region that the contours of `endpoints` bound.
pub fn inside_arc_list(endpoints: &[ArcEndpoint], p: &Point) -> (inside: bool)
    requires
        arc_list_wf(endpoints@),
        p.wf(),
    ensures
        inside == spec_inside(spec_arcs(endpoints@), *p),
{
    let arcs = arc_list_arcs(endpoints);
    inside_arcs(arcs.as_slice(), p)
}

/// How far `p` lies outside the box along an axis: zero in the box.
pub open spec fn spec_box_gap(e: Extents, p: Point) -> int {
    upper(
        upper(e.min_x - p.x, p.x - e.max_x),
        upper(upper(e.min_y - p.y, p.y - e.max_y), 0),
    )
}

/// The least of the distances from `p` to those of the arcs whose boxes lie
/// no farther than `reach` from `p`; `SDF_INFINITY` where there is none.
pub open spec fn spec_min_distance_near(arcs: Seq<Arc>, p: Point, reach: int) -> int
    decreases arcs.len(),
{
    if arcs.len() == 0 {
        SDF_INFINITY as int
    } else if spec_box_gap(arcs.last().spec_extents(), p) > reach {
        spec_min_distance_near(arcs.drop_last(), p, reach)
    } else {
        lower(spec_min_distance_near(arcs.drop_last(), p, reach), arcs.last().spec_distance(p))
    }
}

/// The signed distance from `p` to the arcs, the arcs left out of the
/// distance whose boxes lie farther than `reach` from `p`.
pub open spec fn spec_sdf_arcs_near(arcs: Seq<Arc>, p: Point, reach: int) -> int {
    if spec_inside(arcs, p) {
        -spec_magnitude(spec_min_distance_near(arcs, p, reach), arcs, p)
    } else {
        spec_magnitude(spec_min_distance_near(arcs, p, reach), arcs, p)
    }
}

/// `boxes` holds the box of each of `arcs`, in order.
pub open spec fn are_boxes_of(boxes: Seq<Extents>, arcs: Seq<Arc>) -> bool {
    &&& boxes.len() == arcs.len()
    &&& forall|i: int| 0 <= i < arcs.len() ==> #[trigger] boxes[i] == arcs[i].spec_extents()
}

/// To leave arcs out never brings the distance down, and where the reach
/// takes in the box of every arc nothing is left out.
pub proof fn lemma_near_distance(arcs: Seq<Arc>, p: Point, reach: int)
    ensures
        spec_min_distance_near(arcs, p, reach) >= spec_min_distance(arcs, p),
        (forall|i: int|
            0 <= i < arcs.len() ==> spec_box_gap((#[trigger] arcs[i]).spec_extents(), p) <= reach)
            ==> spec_min_distance_near(arcs, p, reach) == spec_min_distance(arcs, p),
    decreases arcs.len(),
{
    if arcs.len() > 0 {
        let rest = arcs.drop_last();
        lemma_near_distance(rest, p, reach);
        if forall|i: int|
            0 <= i < arcs.len() ==> spec_box_gap((#[trigger] arcs[i]).spec_extents(), p) <= reach {
            assert forall|i: int| 0 <= i < rest.len() implies spec_box_gap(
                (#[trigger] rest[i]).spec_extents(),
                p,
            ) <= reach by {
                assert(rest[i] == arcs[i]);
            }
            assert(arcs.last() == arcs[arcs.len() - 1]);
        }
    }
}

/// The box of each of `arcs`, in order.
pub fn arcs_boxes(arcs: &[Arc]) -> (boxes: Vec<Extents>)
    requires
        arcs_wf(arcs@),
    ensures
        are_boxes_of(boxes@, arcs@),
{
    let mut boxes: Vec<Extents> = Vec::new();
    let mut i: usize = 0;
    while i < arcs.len()
        invariant
            0 <= i <= arcs.len(),
            arcs_wf(arcs@),
            boxes@.len() == i,
            forall|j: int| 0 <= j < i ==> #[trigger] boxes@[j] == arcs@[j].spec_extents(),
        decreases arcs.len() - i,
    {
        boxes.push(arcs[i].extents());
        i += 1;
    }
    boxes
}

/// Whether `p` lies no farther than `reach` outside the box along an axis.
pub fn box_within_reach(e: &Extents, p: &Point, reach: i64) -> (near: bool)
    ensures
        near == (spec_box_gap(*e, *p) <= reach),
{
    let r: i128 = reach as i128;
    r >= 0 && e.min_x as i128 - p.x as i128 <= r && p.x as i128 - e.max_x as i128 <= r
        && e.min_y as i128 - p.y as i128 <= r && p.y as i128 - e.max_y as i128 <= r
}

/// The signed distance from `p` to `arcs` for a caller that needs distances
/// up to `reach` only: an arc whose box, given in `boxes`, lies farther than
/// `reach` from `p` is passed over before its distance is worked out.
pub fn sdf_from_arcs_near(arcs: &[Arc], boxes: &[Extents], p: &Point, reach: i64) -> (dist: i64)
    requires
        arcs_wf(arcs@),
        are_boxes_of(boxes@, arcs@),
        p.wf(),
    ensures
        dist == spec_sdf_arcs_near(arcs@, *p, reach as int),
{
    let mut dist: i64 = SDF_INFINITY;
    let mut i: usize = 0;
    while i < arcs.len()
        invariant
            0 <= i <= arcs.len(),
            arcs_wf(arcs@),
            are_boxes_of(boxes@, arcs@),
            p.wf(),
            dist == spec_min_distance_near(arcs@.subrange(0, i as int), *p, reach as int),
            0 <= dist,
        decreases arcs.len() - i,
    {
        proof {
            let upto = arcs@.subrange(0, i + 1);
            assert(upto.drop_last() == arcs@.subrange(0, i as int));
            assert(upto.last() == arcs@[i as int]);
            assert(boxes@[i as int] == arcs@[i as int].spec_extents());
        }
        if box_within_reach(&boxes[i], p, reach) {
            let one: i64 = arcs[i].distance(p);
            if one < dist {
                dist = one;
            }
        }
        i += 1;
    }
    assert(arcs@.subrange(0, i as int) == arcs@);
    let dist: i64 = if dist == 0 && !on_arcs(arcs, p) {
        1
    } else {
        dist
    };
    if inside_arcs(arcs, p) {
        -dist
    } else {
        dist
    }
}

/// The signed distance from `p` to the arc list `endpoints`: its magnitude is
/// the distance to the nearest arc, and it is negative where `p` lies inside
/// the contours and positive where it lies outside; it is zero on the arcs
/// and nowhere else. For a list without arcs it is `SDF_INFINITY`. Where `closest_p` is given and the list has an arc,
/// it receives the point of the list that is nearest to `p`.
pub fn sdf_from_arc_list(endpoints: &[ArcEndpoint], p: &Point, closest_p: Option<&mut Point>) -> (dist:
    i64)
    requires
        arc_list_wf(endpoints@),
        p.wf(),
    ensures
        dist == spec_sdf(endpoints@, *p),
        endpoints@.len() == 0 ==> dist == SDF_INFINITY,
        spec_on_arcs(spec_arcs(endpoints@), *p) ==> dist == 0,
        !spec_on_arcs(spec_arcs(endpoints@), *p) && spec_inside(spec_arcs(endpoints@), *p)
            ==> dist <= -1,
        !spec_on_arcs(spec_arcs(endpoints@), *p) && !spec_inside(spec_arcs(endpoints@), *p)
            ==> dist >= 1,
        match closest_p {
            Some(slot) => *final(slot) == if spec_arcs(endpoints@).len() > 0 {
                spec_closest_point(spec_arcs(endpoints@), *p)
            } else {
                *slot
            },
            None => true,
        },
{
    let arcs = arc_list_arcs(endpoints);
    let dist: i64 = sdf_from_arcs(arcs.as_slice(), p);
    match closest_p {
        Some(slot) => {
            match closest_point_on_arcs(arcs.as_slice(), p) {
                Some(q) => {
                    *slot = q;
                },
                None => {},
            }
        },
        None => {},
    }
    dist
}

} // verus!
