//! How far a point lies off an arc.
//!
//! The point is given on a finer scale than the lattice: `(x / s, y / s)` for
//! a positive `s`. The fitter states with it how far the points of a curve
//! lie off the arc that stands for the curve.

use vstd::prelude::*;
use crate::extents::lower;
use crate::geometry::{Arc, CURVATURE_ONE};
use crate::numeric::{abs, ceil_div, isqrt, lemma_mul_bound, lemma_square_bound};

verus! {

impl Arc {
    /// How far `(x / s, y / s)` lies beyond the line that stands at `p0` at a
    /// right angle to the arc, as a product with the direction of the arc
    /// there, times `s`.
    pub open spec fn spec_scaled_wedge_start(&self, x: int, y: int, s: int) -> int {
        let cx = self.p1.x - self.p0.x;
        let cy = self.p1.y - self.p0.y;
        let u = CURVATURE_ONE * CURVATURE_ONE - self.d * self.d;
        let v = 2 * (self.d * CURVATURE_ONE);
        (x - s * self.p0.x) * (cx * u + cy * v) + (y - s * self.p0.y) * (cy * u - cx * v)
    }

    /// How far `(x / s, y / s)` lies beyond the line that stands at `p1` at a
    /// right angle to the arc, times `s`.
    pub open spec fn spec_scaled_wedge_end(&self, x: int, y: int, s: int) -> int {
        let cx = self.p1.x - self.p0.x;
        let cy = self.p1.y - self.p0.y;
        let u = CURVATURE_ONE * CURVATURE_ONE - self.d * self.d;
        let v = 2 * (self.d * CURVATURE_ONE);
        (x - s * self.p1.x) * (cx * u - cy * v) + (y - s * self.p1.y) * (cy * u + cx * v)
    }

    /// `(x / s, y / s)` lies in the wedge of an arc of at most a half circle.
    pub open spec fn spec_scaled_in_wedge(&self, x: int, y: int, s: int) -> bool {
        self.spec_scaled_wedge_start(x, y, s) >= 0 && self.spec_scaled_wedge_end(x, y, s) <= 0
    }

    /// The nearest point of the arc to `(x / s, y / s)` is one of its ends:
    /// the point lies outside the wedge, or the arc is a single point.
    pub open spec fn spec_scaled_at_end(&self, x: int, y: int, s: int) -> bool {
        !self.spec_scaled_in_wedge(x, y, s) || (self.d == 0 && self.spec_len2() == 0)
    }

    /// The squared distance from `(x / s, y / s)` to the nearer end of the
    /// arc, times the square of `s`.
    pub open spec fn spec_scaled_end_dist2(&self, x: int, y: int, s: int) -> int {
        lower(
            (x - s * self.p0.x) * (x - s * self.p0.x) + (y - s * self.p0.y) * (y - s * self.p0.y),
            (x - s * self.p1.x) * (x - s * self.p1.x) + (y - s * self.p1.y) * (y - s * self.p1.y),
        )
    }

    /// The cross product of the chord and the vector from `p0` to
    /// `(x / s, y / s)`, times `s`.
    pub open spec fn spec_scaled_cross(&self, x: int, y: int, s: int) -> int {
        (self.p1.x - self.p0.x) * (y - s * self.p0.y) - (self.p1.y - self.p0.y) * (x - s
            * self.p0.x)
    }

    /// The x component of the vector from the centre of the arc's circle to
    /// a point with the x coordinate `x / s`, times `4 * d * CURVATURE_ONE * s`.
    pub open spec fn spec_scaled_from_center_x(&self, x: int, s: int) -> int {
        (2 * (self.d * CURVATURE_ONE)) * (2 * x - s * (self.p0.x + self.p1.x)) + (s * (self.p1.y
            - self.p0.y)) * (CURVATURE_ONE * CURVATURE_ONE - self.d * self.d)
    }

    /// The y component of the vector from the centre of the arc's circle to
    /// a point with the y coordinate `y / s`, times `4 * d * CURVATURE_ONE * s`.
    pub open spec fn spec_scaled_from_center_y(&self, y: int, s: int) -> int {
        (2 * (self.d * CURVATURE_ONE)) * (2 * y - s * (self.p0.y + self.p1.y)) - (s * (self.p1.x
            - self.p0.x)) * (CURVATURE_ONE * CURVATURE_ONE - self.d * self.d)
    }

    /// The squared distance from the centre of the arc's circle to
    /// `(x / s, y / s)`, times the square of `4 * d * CURVATURE_ONE * s`.
    pub open spec fn spec_scaled_from_center2(&self, x: int, y: int, s: int) -> int {
        self.spec_scaled_from_center_x(x, s) * self.spec_scaled_from_center_x(x, s)
            + self.spec_scaled_from_center_y(y, s) * self.spec_scaled_from_center_y(y, s)
    }

    /// The squared radius of the arc's circle, times the square of
    /// `4 * d * CURVATURE_ONE * s`.
    pub open spec fn spec_scaled_radius2(&self, s: int) -> int {
        (s * s) * self.spec_radius2()
    }

    /// The unit of the scaled distances to the centre: `4 * |d| * CURVATURE_ONE * s`.
    pub open spec fn spec_scaled_unit(&self, s: int) -> int {
        (4 * abs(self.d * CURVATURE_ONE)) * s
    }

    /// `(x / s, y / s)` lies within `e` lattice units of the line or the
    /// circle of the arc: of the line of the chord of a straight arc; of the
    /// circle of a curved arc, so that its distance to the centre differs
    /// from the radius by at most `e`, the radius taken between the integer
    /// square root of its scaled square and the next whole number.
    pub open spec fn spec_near_circle(&self, x: int, y: int, s: int, e: int) -> bool {
        if self.d == 0 {
            self.spec_scaled_cross(x, y, s) * self.spec_scaled_cross(x, y, s) <= ((e * s) * (e
                * s)) * self.spec_len2()
        } else {
            let m = e * self.spec_scaled_unit(s);
            let r = isqrt(self.spec_scaled_radius2(s) as nat) as int;
            &&& self.spec_scaled_from_center2(x, y, s) <= (r + m) * (r + m)
            &&& (r + 1 <= m || (r + 1 - m) * (r + 1 - m) <= self.spec_scaled_from_center2(x, y, s))
        }
    }

    /// `(x / s, y / s)` lies within `e` lattice units of the arc, an arc of at
    /// most a half circle, as the fitter gives them: within `e`
    /// of an end of the arc, or in the wedge of the arc, where the nearest
    /// point of the line or the circle is a point of the arc, and within `e`
    /// of that line or circle.
    pub open spec fn spec_within(&self, x: int, y: int, s: int, e: int) -> bool {
        self.spec_scaled_end_dist2(x, y, s) <= (e * s) * (e * s) || (!self.spec_scaled_at_end(
            x,
            y,
            s,
        ) && self.spec_near_circle(x, y, s, e))
    }
}

impl Arc {
    /// Whether `(x / s, y / s)` lies in the wedge of the arc.
    pub fn in_wedge_scaled(&self, x: i128, y: i128, s: i128) -> (b: bool)
        requires
            self.wf(),
            self.spec_minor(),
            1 <= s <= 3,
            -3145728 <= x <= 3145728,
            -3145728 <= y <= 3145728,
        ensures
            b == self.spec_scaled_in_wedge(x as int, y as int, s as int),
    {
        let n: i128 = self.d as i128;
        let unit: i128 = CURVATURE_ONE as i128;
        let cx: i128 = self.p1.x as i128 - self.p0.x as i128;
        let cy: i128 = self.p1.y as i128 - self.p0.y as i128;
        proof {
            lemma_square_bound(n as int, 16384);
            lemma_mul_bound(s as int, self.p0.x as int, 3, 1048576);
            lemma_mul_bound(s as int, self.p0.y as int, 3, 1048576);
            lemma_mul_bound(s as int, self.p1.x as int, 3, 1048576);
            lemma_mul_bound(s as int, self.p1.y as int, 3, 1048576);
        }
        let u: i128 = unit * unit - n * n;
        let v: i128 = 2 * (n * unit);
        proof {
            lemma_mul_bound(cx as int, u as int, 2097152, 268435456);
            lemma_mul_bound(cy as int, u as int, 2097152, 268435456);
            lemma_mul_bound(cx as int, v as int, 2097152, 536870912);
            lemma_mul_bound(cy as int, v as int, 2097152, 536870912);
        }
        let t0x: i128 = cx * u + cy * v;
        let t0y: i128 = cy * u - cx * v;
        let t1x: i128 = cx * u - cy * v;
        let t1y: i128 = cy * u + cx * v;
        let ax: i128 = x - s * (self.p0.x as i128);
        let ay: i128 = y - s * (self.p0.y as i128);
        let bx: i128 = x - s * (self.p1.x as i128);
        let by: i128 = y - s * (self.p1.y as i128);
        proof {
            lemma_mul_bound(ax as int, t0x as int, 6291456, 1688849860263936);
            lemma_mul_bound(ay as int, t0y as int, 6291456, 1688849860263936);
            lemma_mul_bound(bx as int, t1x as int, 6291456, 1688849860263936);
            lemma_mul_bound(by as int, t1y as int, 6291456, 1688849860263936);
        }
        ax * t0x + ay * t0y >= 0 && bx * t1x + by * t1y <= 0
    }

    /// The cross product of the chord and the vector from `p0` to
    /// `(x / s, y / s)`, times `s`.
    pub fn cross_scaled(&self, x: i128, y: i128, s: i128) -> (c: i128)
        requires
            self.wf(),
            self.spec_minor(),
            1 <= s <= 3,
            -3145728 <= x <= 3145728,
            -3145728 <= y <= 3145728,
        ensures
            c == self.spec_scaled_cross(x as int, y as int, s as int),
            -52776558133248 <= c <= 52776558133248,
    {
        let cx: i128 = self.p1.x as i128 - self.p0.x as i128;
        let cy: i128 = self.p1.y as i128 - self.p0.y as i128;
        proof {
            lemma_mul_bound(s as int, self.p0.x as int, 3, 1048576);
            lemma_mul_bound(s as int, self.p0.y as int, 3, 1048576);
        }
        let ax: i128 = x - s * (self.p0.x as i128);
        let ay: i128 = y - s * (self.p0.y as i128);
        proof {
            lemma_mul_bound(cx as int, ay as int, 2097152, 6291456);
            lemma_mul_bound(cy as int, ax as int, 2097152, 6291456);
        }
        cx * ay - cy * ax
    }

    /// The vector from the centre of the arc's circle to `(x / s, y / s)`,
    /// times `4 * d * CURVATURE_ONE * s`.
    pub fn from_center_scaled(&self, x: i128, y: i128, s: i128) -> (v: (i128, i128))
        requires
            self.wf(),
            self.spec_minor(),
            1 <= s <= 3,
            -3145728 <= x <= 3145728,
            -3145728 <= y <= 3145728,
        ensures
            v.0 == self.spec_scaled_from_center_x(x as int, s as int),
            v.1 == self.spec_scaled_from_center_y(y as int, s as int),
            -9007199254740992 <= v.0 <= 9007199254740992,
            -9007199254740992 <= v.1 <= 9007199254740992,
    {
        let n: i128 = self.d as i128;
        let unit: i128 = CURVATURE_ONE as i128;
        let cx: i128 = self.p1.x as i128 - self.p0.x as i128;
        let cy: i128 = self.p1.y as i128 - self.p0.y as i128;
        let sx: i128 = self.p0.x as i128 + self.p1.x as i128;
        let sy: i128 = self.p0.y as i128 + self.p1.y as i128;
        proof {
            lemma_square_bound(n as int, 16384);
            lemma_mul_bound(s as int, sx as int, 3, 2097152);
            lemma_mul_bound(s as int, sy as int, 3, 2097152);
            lemma_mul_bound(s as int, cx as int, 3, 2097152);
            lemma_mul_bound(s as int, cy as int, 3, 2097152);
        }
        let u: i128 = unit * unit - n * n;
        let w: i128 = 2 * (n * unit);
        let qx: i128 = 2 * x - s * sx;
        let qy: i128 = 2 * y - s * sy;
        let scx: i128 = s * cx;
        let scy: i128 = s * cy;
        proof {
            lemma_mul_bound(w as int, qx as int, 536870912, 12582912);
            lemma_mul_bound(w as int, qy as int, 536870912, 12582912);
            lemma_mul_bound(scx as int, u as int, 6291456, 268435456);
            lemma_mul_bound(scy as int, u as int, 6291456, 268435456);
        }
        (w * qx + scy * u, w * qy - scx * u)
    }
}

/// A quotient of a number that is not negative by a positive one, rounded
/// up, lies between zero and the number.
pub proof fn lemma_ceil_quotient_bounded(a: int, b: int)
    requires
        a >= 0,
        b > 0,
    ensures
        0 <= ceil_div(a, b) <= a,
        a <= ceil_div(a, b) * b,
{
    let t = (-a) / b;
    vstd::arithmetic::div_mod::lemma_fundamental_div_mod(-a, b);
    assert(0 <= -t <= a && a <= (-t) * b) by (nonlinear_arith)
        requires
            -a == b * t + (-a) % b,
            0 <= (-a) % b < b,
            a >= 0,
            b > 0,
    ;
}

/// A point within a distance of an arc is within every larger distance of it.
#[verifier::rlimit(50)]
pub proof fn lemma_within_monotonic(arc: Arc, x: int, y: int, s: int, e1: int, e2: int)
    requires
        s > 0,
        0 <= e1 <= e2,
        arc.spec_within(x, y, s, e1),
    ensures
        arc.spec_within(x, y, s, e2),
{
    assert((e1 * s) * (e1 * s) <= (e2 * s) * (e2 * s)) by (nonlinear_arith)
        requires
            s > 0,
            0 <= e1 <= e2,
    ;
    if arc.spec_scaled_end_dist2(x, y, s) <= (e1 * s) * (e1 * s) {
    } else if arc.d == 0 {
        let l2 = arc.spec_len2();
        let cx = arc.p1.x - arc.p0.x;
        let cy = arc.p1.y - arc.p0.y;
        assert(cx * cx + cy * cy >= 0) by (nonlinear_arith);
        assert(((e1 * s) * (e1 * s)) * l2 <= ((e2 * s) * (e2 * s)) * l2) by (nonlinear_arith)
            requires
                (e1 * s) * (e1 * s) <= (e2 * s) * (e2 * s),
                l2 >= 0,
        ;
    } else {
        let unit = arc.spec_scaled_unit(s);
        let r = isqrt(arc.spec_scaled_radius2(s) as nat) as int;
        assert(unit > 0) by (nonlinear_arith)
            requires
                unit == (4 * abs(arc.d * CURVATURE_ONE)) * s,
                arc.d != 0,
                CURVATURE_ONE == 16384,
                s > 0,
        ;
        let m1 = e1 * unit;
        let m2 = e2 * unit;
        assert(0 <= m1 <= m2) by (nonlinear_arith)
            requires
                m1 == e1 * unit,
                m2 == e2 * unit,
                0 <= e1 <= e2,
                unit > 0,
        ;
        assert((r + m1) * (r + m1) <= (r + m2) * (r + m2)) by (nonlinear_arith)
            requires
                0 <= r,
                0 <= m1 <= m2,
        ;
        if r + 1 > m2 {
            assert((r + 1 - m2) * (r + 1 - m2) <= (r + 1 - m1) * (r + 1 - m1)) by (nonlinear_arith)
                requires
                    0 <= r + 1 - m2 <= r + 1 - m1,
            ;
        }
    }
}

/// The squared length of a vector does not change when the vector is turned
/// and stretched: for the vector `(x, y)` and the turn by `(a, g)`.
#[verifier::rlimit(50)]
pub proof fn lemma_turned_length(x: int, y: int, a: int, g: int)
    ensures
        (x * a + y * g) * (x * a + y * g) + (y * a - x * g) * (y * a - x * g) == (x * x + y * y)
            * (a * a + g * g),
{
    let xa = x * a;
    let yg = y * g;
    let ya = y * a;
    let xg = x * g;
    assert((xa + yg) * (xa + yg) == xa * xa + 2 * (xa * yg) + yg * yg) by (nonlinear_arith);
    assert((ya - xg) * (ya - xg) == ya * ya - 2 * (ya * xg) + xg * xg) by (nonlinear_arith);
    assert(xa * yg == ya * xg) by (nonlinear_arith)
        requires
            xa == x * a,
            yg == y * g,
            ya == y * a,
            xg == x * g,
    ;
    assert(xa * xa == (x * x) * (a * a) && yg * yg == (y * y) * (g * g) && ya * ya == (y * y) * (a
        * a) && xg * xg == (x * x) * (g * g)) by (nonlinear_arith)
        requires
            xa == x * a,
            yg == y * g,
            ya == y * a,
            xg == x * g,
    ;
    assert((x * x + y * y) * (a * a + g * g) == (x * x) * (a * a) + (x * x) * (g * g) + (y * y)
        * (a * a) + (y * y) * (g * g)) by (nonlinear_arith);
}

/// Every point of an arc, as `sample_x`, `sample_y` and `sample_den` give
/// it, lies on the circle of the arc: its distance to the centre is the
/// radius.
#[verifier::rlimit(50)]
pub proof fn lemma_sample_on_circle(arc: Arc, a: int, b: int)
    ensures
        arc.spec_scaled_from_center2(arc.sample_x(a, b), arc.sample_y(a, b), arc.sample_den(a, b))
            == arc.spec_scaled_radius2(arc.sample_den(a, b)),
{
    let n = arc.d as int;
    let dd: int = 268435456;
    let nn = n * n;
    let aa = a * a;
    let bb = b * b;
    let t = a * b;
    let nd = n * 16384;
    let g = dd + nn;
    let u = dd - nn;
    let v = 2 * nd;
    let w = bb * dd + aa * nn;
    let m = bb * dd - aa * nn;
    let s = 2 * w;
    let cx = arc.p1.x - arc.p0.x;
    let cy = arc.p1.y - arc.p0.y;
    let sx = arc.p0.x + arc.p1.x;
    let sy = arc.p0.y + arc.p1.y;
    let ka = t * g;
    let kb = nd * (bb - aa);
    let x = arc.sample_x(a, b);
    let y = arc.sample_y(a, b);
    assert(x == sx * w + ka * cx + kb * cy);
    assert(y == sy * w + ka * cy - kb * cx);
    let alpha = 2 * (v * ka);
    let gamma = 2 * (v * kb) + s * u;
    let vx = v * (2 * x - s * sx) + (s * cy) * u;
    let vy = v * (2 * y - s * sy) - (s * cx) * u;
    let ex = 2 * x - s * sx;
    let ey = 2 * y - s * sy;
    assert(ex == 2 * (ka * cx) + 2 * (kb * cy) && ey == 2 * (ka * cy) - 2 * (kb * cx))
        by (nonlinear_arith)
        requires
            ex == 2 * x - s * sx,
            ey == 2 * y - s * sy,
            x == sx * w + ka * cx + kb * cy,
            y == sy * w + ka * cy - kb * cx,
            s == 2 * w,
    ;
    assert(v * ex == cx * (2 * (v * ka)) + cy * (2 * (v * kb))) by (nonlinear_arith)
        requires
            ex == 2 * (ka * cx) + 2 * (kb * cy),
    ;
    assert(v * ey == cy * (2 * (v * ka)) - cx * (2 * (v * kb))) by (nonlinear_arith)
        requires
            ey == 2 * (ka * cy) - 2 * (kb * cx),
    ;
    assert((s * cy) * u == cy * (s * u) && (s * cx) * u == cx * (s * u)) by (nonlinear_arith);
    assert(cy * gamma == cy * (2 * (v * kb)) + cy * (s * u) && cx * gamma == cx * (2 * (v * kb))
        + cx * (s * u)) by (nonlinear_arith)
        requires
            gamma == 2 * (v * kb) + s * u,
    ;
    assert(vx == cx * alpha + cy * gamma);
    assert(vy == cy * alpha - cx * gamma);
    lemma_turned_length(cx, cy, alpha, gamma);
    // the turn is by twice the weight of the point, stretched by `g`
    assert(nd * nd == nn * dd) by (nonlinear_arith)
        requires
            nd == n * 16384,
            nn == n * n,
            dd == 268435456,
    ;
    assert(t * t == aa * bb) by (nonlinear_arith)
        requires
            t == a * b,
            aa == a * a,
            bb == b * b,
    ;
    let z = nn * dd;
    let p = bb * dd;
    let q = aa * nn;
    assert(v * kb == 2 * (z * (bb - aa))) by (nonlinear_arith)
        requires
            v == 2 * nd,
            kb == nd * (bb - aa),
            nd * nd == z,
    ;
    assert(p * nn == bb * z && q * dd == aa * z) by (nonlinear_arith)
        requires
            p == bb * dd,
            q == aa * nn,
            z == nn * dd,
    ;
    assert(z * (bb - aa) == bb * z - aa * z) by (nonlinear_arith);
    assert((2 * (p + q)) * (dd - nn) == 2 * (p * dd) - 2 * (p * nn) + 2 * (q * dd) - 2 * (q * nn))
        by (nonlinear_arith);
    assert((2 * (dd + nn)) * (p - q) == 2 * (p * dd) - 2 * (q * dd) + 2 * (p * nn) - 2 * (q * nn))
        by (nonlinear_arith);
    assert(gamma == (2 * g) * m);
    assert(alpha == (4 * g) * (t * nd)) by (nonlinear_arith)
        requires
            alpha == 2 * ((2 * nd) * (t * g)),
    ;
    let tn = t * nd;
    assert(tn * tn == (aa * nn) * (bb * dd)) by (nonlinear_arith)
        requires
            tn == t * nd,
            t * t == aa * bb,
            nd * nd == nn * dd,
    ;
    assert(4 * (tn * tn) + m * m == w * w) by (nonlinear_arith)
        requires
            tn * tn == q * p,
            m == p - q,
            w == p + q,
    ;
    assert(alpha * alpha + gamma * gamma == (s * s) * (g * g)) by (nonlinear_arith)
        requires
            alpha == (4 * g) * tn,
            gamma == (2 * g) * m,
            4 * (tn * tn) + m * m == w * w,
            s == 2 * w,
    ;
    assert((cx * cx + cy * cy) * ((s * s) * (g * g)) == (s * s) * ((cx * cx + cy * cy) * (g * g)))
        by (nonlinear_arith);
}

/// Every point of an arc at a parameter between `-1` and `1` lies on the
/// side of the chord to which the arc bulges, or on the chord: with
/// `lemma_sample_on_circle`, it is a point of the arc.
#[verifier::rlimit(50)]
pub proof fn lemma_sample_on_bulge_side(arc: Arc, a: int, b: int)
    requires
        b > 0,
        -b <= a <= b,
    ensures
        arc.d * arc.spec_scaled_cross(
            arc.sample_x(a, b),
            arc.sample_y(a, b),
            arc.sample_den(a, b),
        ) <= 0,
{
    let n = arc.d as int;
    let w = arc.sample_weight(a, b);
    let s = 2 * w;
    let cx = arc.p1.x - arc.p0.x;
    let cy = arc.p1.y - arc.p0.y;
    let ka = (a * b) * (CURVATURE_ONE * CURVATURE_ONE + n * n);
    let kb = (n * 16384) * (b * b - a * a);
    let x = arc.sample_x(a, b);
    let y = arc.sample_y(a, b);
    let l2 = cx * cx + cy * cy;
    let ex = x - s * arc.p0.x;
    let ey = y - s * arc.p0.y;
    assert(ex == w * cx + ka * cx + kb * cy && ey == w * cy + ka * cy - kb * cx)
        by (nonlinear_arith)
        requires
            ex == x - s * arc.p0.x,
            ey == y - s * arc.p0.y,
            x == (arc.p0.x + arc.p1.x) * w + ka * cx + kb * cy,
            y == (arc.p0.y + arc.p1.y) * w + ka * cy - kb * cx,
            s == 2 * w,
            cx == arc.p1.x - arc.p0.x,
            cy == arc.p1.y - arc.p0.y,
    ;
    assert(cx * ey - cy * ex == -(kb * l2)) by (nonlinear_arith)
        requires
            ex == w * cx + ka * cx + kb * cy,
            ey == w * cy + ka * cy - kb * cx,
            l2 == cx * cx + cy * cy,
    ;
    let f = b * b - a * a;
    assert(f >= 0) by (nonlinear_arith)
        requires
            f == b * b - a * a,
            b > 0,
            -b <= a <= b,
    ;
    assert(n * (kb * l2) >= 0) by (nonlinear_arith)
        requires
            kb == (n * 16384) * f,
            f >= 0,
            l2 == cx * cx + cy * cy,
    ;
    assert(n * (-(kb * l2)) == -(n * (kb * l2))) by (nonlinear_arith);
}

} // verus!
