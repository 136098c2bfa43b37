//! Bounding boxes of arcs and of arc lists.
//!
//! Along each axis an arc reaches as far as the farther of its ends, unless
//! it passes the point of its circle that lies farthest that way: then it
//! reaches as far as the circle. The box of an arc is rounded outwards to
//! the lattice; for a straight arc it is the box of the two endpoints.

use vstd::prelude::*;
use crate::arc_list::{arc_list_arcs, arcs_wf, lemma_arcs_wf, spec_arcs};
use crate::geometry::{Arc, ArcEndpoint, Extents, CURVATURE_ONE, arc_list_wf};
use crate::numeric::{
    abs,
    ceil_div,
    ceil_sqrt,
    ceil_sqrt_u128,
    div_ceil,
    lemma_ceil_sqrt_bounds,
    lemma_ceil_sqrt_le,
    lemma_mul_bound,
    lemma_square_bound,
    signed,
};

verus! {

/// How far an arc reaches along an axis: the largest coordinate of its
/// points, rounded up. Here `p0c` and `p1c` are the coordinates of the ends
/// on the axis, `cc` is the coordinate of the chord and `rc` that of the
/// chord turned towards the apex, `n` is the curvature and `sr` the radius of
/// the circle on the scale `4 * n * CURVATURE_ONE`, rounded up. Where the arc
/// arrives at `p1` without having turned back along the axis, `p1` is its
/// farthest point, and likewise `p0` where it leaves there turning away; else
/// the arc passes the farthest point of its circle.
pub open spec fn spec_axis_high(p0c: int, p1c: int, cc: int, rc: int, n: int, sr: int) -> int {
    let u = CURVATURE_ONE * CURVATURE_ONE - n * n;
    let v = 2 * (n * CURVATURE_ONE);
    if cc >= 0 && u * cc - v * rc >= 0 {
        p1c
    } else if cc <= 0 && u * cc + v * rc <= 0 {
        p0c
    } else {
        ceil_div(signed(2 * v, v * (p0c + p1c) - rc * u) + sr, abs(2 * v))
    }
}

impl Arc {
    /// The radius of the arc's circle on the scale `4 * d * CURVATURE_ONE`,
    /// rounded up.
    pub open spec fn spec_radius_above(&self) -> int {
        ceil_sqrt(self.spec_radius2() as nat) as int
    }

    /// The box of the arc: how far it reaches along each axis, either way.
    pub open spec fn spec_extents(&self) -> Extents {
        let cx = self.p1.x - self.p0.x;
        let cy = self.p1.y - self.p0.y;
        let sr = self.spec_radius_above();
        Extents {
            min_x: (-spec_axis_high(-self.p0.x, -self.p1.x, -cx, -cy, self.d as int, sr)) as i64,
            min_y: (-spec_axis_high(-self.p0.y, -self.p1.y, -cy, cx, self.d as int, sr)) as i64,
            max_x: spec_axis_high(
                self.p0.x as int,
                self.p1.x as int,
                cx,
                cy,
                self.d as int,
                sr,
            ) as i64,
            max_y: spec_axis_high(
                self.p0.y as int,
                self.p1.y as int,
                cy,
                -cx,
                self.d as int,
                sr,
            ) as i64,
        }
    }

    /// How far the arc reaches along an axis.
    pub fn axis_high(&self, p0c: i64, p1c: i64, cc: i64, rc: i64) -> (h: i64)
        requires
            self.wf(),
            -1048576 <= p0c <= 1048576,
            -1048576 <= p1c <= 1048576,
            -2097152 <= cc <= 2097152,
            -2097152 <= rc <= 2097152,
        ensures
            h == spec_axis_high(
                p0c as int,
                p1c as int,
                cc as int,
                rc as int,
                self.d as int,
                self.spec_radius_above(),
            ),
            -4611686018427387904 <= h <= 4611686018427387904,
    {
        let n: i128 = self.d as i128;
        let unit: i128 = CURVATURE_ONE as i128;
        proof {
            lemma_square_bound(n as int, 524288);
        }
        let u: i128 = unit * unit - n * n;
        let v: i128 = 2 * (n * unit);
        proof {
            lemma_mul_bound(u as int, cc as int, 274877906944, 2097152);
            lemma_mul_bound(v as int, rc as int, 17179869184, 2097152);
        }
        let along: i128 = u * (cc as i128);
        let across: i128 = v * (rc as i128);
        proof {
            lemma_axis_high_bounded(*self, p0c as int, p1c as int, cc as int, rc as int);
        }
        if cc >= 0 && along - across >= 0 {
            p1c
        } else if cc <= 0 && along + across <= 0 {
            p0c
        } else {
            proof {
                // a straight arc ends at its farthest point
                assert(n != 0) by (nonlinear_arith)
                    requires
                        !(cc >= 0 && along - across >= 0),
                        !(cc <= 0 && along + across <= 0),
                        along == (unit * unit - n * n) * cc,
                        across == (2 * (n * unit)) * rc,
                        unit == 16384,
                ;
                assert(v >= 32768 || v <= -32768) by (nonlinear_arith)
                    requires
                        v == 2 * (n * unit),
                        n != 0,
                        unit == 16384,
                ;
                lemma_mul_bound(v as int, p0c + p1c, 17179869184, 2097152);
                lemma_mul_bound(rc as int, u as int, 2097152, 274877906944);
            }
            let r2: i128 = self.radius2();
            let sr: u128 = ceil_sqrt_u128(r2 as u128);
            proof {
                lemma_ceil_sqrt_le(r2 as nat, 2305843009213693952);
            }
            let center: i128 = v * (p0c as i128 + p1c as i128) - (rc as i128) * u;
            let k: i128 = 2 * v;
            if k < 0 {
                div_ceil(-center + sr as i128, -k) as i64
            } else {
                div_ceil(center + sr as i128, k) as i64
            }
        }
    }

    /// The box of the arc.
    pub fn extents(&self) -> (e: Extents)
        requires
            self.wf(),
        ensures
            e == self.spec_extents(),
    {
        let cx: i64 = self.p1.x - self.p0.x;
        let cy: i64 = self.p1.y - self.p0.y;
        Extents {
            min_x: -self.axis_high(-self.p0.x, -self.p1.x, -cx, -cy),
            min_y: -self.axis_high(-self.p0.y, -self.p1.y, -cy, cx),
            max_x: self.axis_high(self.p0.x, self.p1.x, cx, cy),
            max_y: self.axis_high(self.p0.y, self.p1.y, cy, -cx),
        }
    }
}

/// The smaller of two numbers.
pub open spec fn lower(a: int, b: int) -> int {
    if a < b {
        a
    } else {
        b
    }
}

/// The larger of two numbers.
pub open spec fn upper(a: int, b: int) -> int {
    if a > b {
        a
    } else {
        b
    }
}

/// The box of a sequence of arcs: the smallest box that holds the box of
/// each; the empty box for no arcs.
pub open spec fn spec_arcs_extents(arcs: Seq<Arc>) -> Extents
    decreases arcs.len(),
{
    if arcs.len() == 0 {
        Extents::spec_empty()
    } else {
        spec_arcs_extents(arcs.drop_last()).union(arcs.last().spec_extents())
    }
}

/// The box of an arc list: the box of its arcs.
pub open spec fn spec_extents(list: Seq<ArcEndpoint>) -> Extents {
    spec_arcs_extents(spec_arcs(list))
}

/// The weight of a point of an arc is positive.
pub proof fn lemma_weight_positive(a: int, b: int, n: int)
    requires
        b > 0,
    ensures
        (b * b) * (16384 * 16384) + (a * a) * (n * n) > 0,
{
    assert((b * b) * (16384 * 16384) + (a * a) * (n * n) > 0) by (nonlinear_arith)
        requires
            b > 0,
    ;
}

/// The points of an arc at the parameters `-1` and `1` are its ends, and
/// the point at `0` is its apex: it lies over the middle of the chord, off
/// it by the curvature times half the chord.
#[verifier::rlimit(50)]
pub proof fn lemma_sample_ends(arc: Arc, b: int)
    requires
        b > 0,
    ensures
        arc.sample_den(-b, b) > 0,
        arc.sample_x(-b, b) == arc.p0.x * arc.sample_den(-b, b),
        arc.sample_y(-b, b) == arc.p0.y * arc.sample_den(-b, b),
        arc.sample_x(b, b) == arc.p1.x * arc.sample_den(b, b),
        arc.sample_y(b, b) == arc.p1.y * arc.sample_den(b, b),
        arc.sample_den(0, b) == (2 * (b * b)) * (CURVATURE_ONE * CURVATURE_ONE),
        arc.sample_x(0, b) == ((b * b) * CURVATURE_ONE) * (CURVATURE_ONE * (arc.p0.x + arc.p1.x)
            + arc.d * (arc.p1.y - arc.p0.y)),
        arc.sample_y(0, b) == ((b * b) * CURVATURE_ONE) * (CURVATURE_ONE * (arc.p0.y + arc.p1.y)
            - arc.d * (arc.p1.x - arc.p0.x)),
{
    let n = arc.d as int;
    let bb = b * b;
    let nn = n * n;
    let dd: int = 268435456;
    let g = dd + nn;
    assert(bb > 0 && nn >= 0) by (nonlinear_arith)
        requires
            b > 0,
            bb == b * b,
            nn == n * n,
    ;
    assert((-b) * (-b) == bb && (-b) * b == -bb && bb - bb == 0 && 0 * b == 0 && 0 * 0 == 0)
        by (nonlinear_arith)
        requires
            bb == b * b,
    ;
    let w = bb * dd + bb * nn;
    assert(w == bb * g && w > 0) by (nonlinear_arith)
        requires
            w == bb * dd + bb * nn,
            g == dd + nn,
            bb > 0,
            dd == 268435456,
            nn >= 0,
    ;
    let cx = arc.p1.x - arc.p0.x;
    let cy = arc.p1.y - arc.p0.y;
    let sx = arc.p0.x + arc.p1.x;
    let sy = arc.p0.y + arc.p1.y;
    assert(sx * w + (-bb * g) * cx + ((n * 16384) * 0) * cy == arc.p0.x * (2 * w))
        by (nonlinear_arith)
        requires
            w == bb * g,
            sx == arc.p0.x + arc.p1.x,
            cx == arc.p1.x - arc.p0.x,
    ;
    assert(sy * w + (-bb * g) * cy - ((n * 16384) * 0) * cx == arc.p0.y * (2 * w))
        by (nonlinear_arith)
        requires
            w == bb * g,
            sy == arc.p0.y + arc.p1.y,
            cy == arc.p1.y - arc.p0.y,
    ;
    assert(sx * w + (bb * g) * cx + ((n * 16384) * 0) * cy == arc.p1.x * (2 * w))
        by (nonlinear_arith)
        requires
            w == bb * g,
            sx == arc.p0.x + arc.p1.x,
            cx == arc.p1.x - arc.p0.x,
    ;
    assert(sy * w + (bb * g) * cy - ((n * 16384) * 0) * cx == arc.p1.y * (2 * w))
        by (nonlinear_arith)
        requires
            w == bb * g,
            sy == arc.p0.y + arc.p1.y,
            cy == arc.p1.y - arc.p0.y,
    ;
    assert((0 * g) * cx == 0 && (0 * g) * cy == 0 && 0 * nn == 0) by (nonlinear_arith);
    assert(sx * (bb * dd + 0) + 0 + ((n * 16384) * (bb - 0)) * cy == (bb * 16384) * (16384 * sx
        + n * cy)) by (nonlinear_arith)
        requires
            dd == 268435456,
    ;
    assert(sy * (bb * dd + 0) + 0 - ((n * 16384) * (bb - 0)) * cx == (bb * 16384) * (16384 * sy
        - n * cx)) by (nonlinear_arith)
        requires
            dd == 268435456,
    ;
}

/// Along an axis no point of an arc lies farther than `spec_axis_high` says.
/// Here `xc` is the coordinate of the point at the parameter `a / b`, times
/// twice its weight `w`, and `qc` the coordinate of the vector from the
/// centre of the circle to the point, which is no longer than the radius.
#[verifier::rlimit(50)]
pub proof fn lemma_axis_high(
    p0c: int,
    p1c: int,
    rc: int,
    n: int,
    a: int,
    b: int,
    sr: int,
    r2: int,
)
    requires
        b > 0,
        -b <= a <= b,
        0 <= r2 <= sr * sr,
        0 <= sr,
        ({
            let w = (b * b) * 268435456 + (a * a) * (n * n);
            let ka = (a * b) * (268435456 + n * n);
            let kb = (n * 16384) * (b * b - a * a);
            let xc = (p0c + p1c) * w + ka * (p1c - p0c) + kb * rc;
            let qc = (4 * (n * 16384)) * xc - (2 * w) * ((2 * (n * 16384)) * (p0c + p1c) - rc * (
            268435456 - n * n));
            qc * qc <= ((2 * w) * (2 * w)) * r2
        }),
    ensures
        ({
            let w = (b * b) * 268435456 + (a * a) * (n * n);
            let ka = (a * b) * (268435456 + n * n);
            let kb = (n * 16384) * (b * b - a * a);
            (p0c + p1c) * w + ka * (p1c - p0c) + kb * rc <= (2 * w) * spec_axis_high(
                p0c,
                p1c,
                p1c - p0c,
                rc,
                n,
                sr,
            )
        }),
{
    let dd: int = 268435456;
    let nn = n * n;
    let g = dd + nn;
    let u = dd - nn;
    let nd = n * 16384;
    let v = 2 * nd;
    let cc = p1c - p0c;
    let w = (b * b) * dd + (a * a) * nn;
    let den = 2 * w;
    let ka = (a * b) * g;
    let f = b * b - a * a;
    let kb = nd * f;
    let xc = (p0c + p1c) * w + ka * cc + kb * rc;
    let t1 = u * cc - v * rc;
    let t0 = u * cc + v * rc;
    lemma_weight_positive(a, b, n);
    crate::exact::lemma_weight_products(a, b, n);
    crate::exact::lemma_offsets(w, 0, p0c, p1c, ka, cc, kb * rc);
    assert(den * 0 == 0 && den * (0 - p1c) == -(den * p1c) && den * (0 - p0c) == -(den * p0c)
        && (-(w + ka)) * cc == -((w + ka) * cc)) by (nonlinear_arith);
    assert(den * p1c - xc == (w - ka) * cc - kb * rc);
    assert(xc - den * p0c == (w + ka) * cc + kb * rc);
    let ba = b - a;
    let ab = a + b;
    assert(g > 0) by (nonlinear_arith)
        requires
            g == dd + n * n,
            dd == 268435456,
    ;
    if cc >= 0 && t1 >= 0 {
        let q = b * dd - a * nn;
        let h = q * cc - (nd * ab) * rc;
        assert((ba * q) * cc == ba * (q * cc)) by (nonlinear_arith);
        assert((nd * (ba * ab)) * rc == ba * ((nd * ab) * rc)) by (nonlinear_arith);
        assert(ba * h == ba * (q * cc) - ba * ((nd * ab) * rc)) by (nonlinear_arith)
            requires
                h == q * cc - (nd * ab) * rc,
        ;
        assert((w - ka) * cc - kb * rc == ba * h);
        assert(2 * h == ba * (g * cc) + ab * t1) by {
            assert(ab * t1 == (ab * u) * cc - 2 * ((nd * ab) * rc)) by (nonlinear_arith)
                requires
                    t1 == u * cc - (2 * nd) * rc,
            ;
            assert(ba * (g * cc) == (ba * g) * cc) by (nonlinear_arith);
            assert(ba * g + ab * u == 2 * q) by (nonlinear_arith)
                requires
                    g == dd + nn,
                    u == dd - nn,
                    ba == b - a,
                    ab == a + b,
                    q == b * dd - a * nn,
            ;
            assert((ba * g) * cc + (ab * u) * cc == (2 * q) * cc && (2 * q) * cc == 2 * (q * cc))
                by (nonlinear_arith)
                requires
                    ba * g + ab * u == 2 * q,
            ;
        }
        assert(ba * h >= 0) by (nonlinear_arith)
            requires
                2 * h == ba * (g * cc) + ab * t1,
                ba >= 0,
                ab >= 0,
                g > 0,
                cc >= 0,
                t1 >= 0,
        ;
    } else if cc <= 0 && t0 <= 0 {
        let q = b * dd + a * nn;
        let h = q * cc + (nd * ba) * rc;
        assert((ab * q) * cc == ab * (q * cc)) by (nonlinear_arith);
        assert((nd * (ba * ab)) * rc == ab * ((nd * ba) * rc)) by (nonlinear_arith);
        assert(ab * h == ab * (q * cc) + ab * ((nd * ba) * rc)) by (nonlinear_arith)
            requires
                h == q * cc + (nd * ba) * rc,
        ;
        assert((w + ka) * cc + kb * rc == ab * h);
        assert(2 * h == ab * (g * cc) + ba * t0) by {
            assert(ba * t0 == (ba * u) * cc + 2 * ((nd * ba) * rc)) by (nonlinear_arith)
                requires
                    t0 == u * cc + (2 * nd) * rc,
            ;
            assert(ab * (g * cc) == (ab * g) * cc) by (nonlinear_arith);
            assert(ab * g + ba * u == 2 * q) by (nonlinear_arith)
                requires
                    g == dd + nn,
                    u == dd - nn,
                    ba == b - a,
                    ab == a + b,
                    q == b * dd + a * nn,
            ;
            assert((ab * g) * cc + (ba * u) * cc == (2 * q) * cc && (2 * q) * cc == 2 * (q * cc))
                by (nonlinear_arith)
                requires
                    ab * g + ba * u == 2 * q,
            ;
        }
        assert(ab * h <= 0) by (nonlinear_arith)
            requires
                2 * h == ab * (g * cc) + ba * t0,
                ba >= 0,
                ab >= 0,
                g > 0,
                cc <= 0,
                t0 <= 0,
        ;
    } else {
        assert(n != 0) by (nonlinear_arith)
            requires
                !(cc >= 0 && t1 >= 0),
                !(cc <= 0 && t0 <= 0),
                t1 == (dd - n * n) * cc - (2 * (n * 16384)) * rc,
                t0 == (dd - n * n) * cc + (2 * (n * 16384)) * rc,
                dd == 268435456,
        ;
        let k = 2 * v;
        let center = v * (p0c + p1c) - rc * u;
        let qc = k * xc - den * center;
        let ka_abs = abs(k);
        assert(ka_abs > 0) by (nonlinear_arith)
            requires
                ka_abs == abs(4 * (n * 16384)),
                n != 0,
        ;
        // the point is no farther from the centre than the radius
        assert(-(den * sr) <= qc <= den * sr) by (nonlinear_arith)
            requires
                qc * qc <= (den * den) * r2,
                0 <= r2 <= sr * sr,
                0 <= sr,
                den > 0,
        ;
        let top = signed(k, center) + sr;
        let m = ceil_div(top, ka_abs);
        vstd::arithmetic::div_mod::lemma_fundamental_div_mod(-top, ka_abs);
        assert(top <= ka_abs * m) by (nonlinear_arith)
            requires
                -top == ka_abs * ((-top) / ka_abs) + (-top) % ka_abs,
                0 <= (-top) % ka_abs < ka_abs,
                m == -((-top) / ka_abs),
        ;
        assert(ka_abs * xc <= den * top) by (nonlinear_arith)
            requires
                qc == k * xc - den * center,
                -(den * sr) <= qc <= den * sr,
                top == signed(k, center) + sr,
                ka_abs == abs(k),
        ;
        assert(xc <= den * m) by (nonlinear_arith)
            requires
                ka_abs * xc <= den * top,
                top <= ka_abs * m,
                ka_abs > 0,
                den > 0,
        ;
    }
}

/// Every point of an arc lies in the box of the arc.
#[verifier::rlimit(50)]
pub proof fn lemma_arc_in_extents(arc: Arc, a: int, b: int)
    requires
        arc.wf(),
        b > 0,
        -b <= a <= b,
    ensures
        arc.sample_den(a, b) > 0,
        arc.spec_extents().contains_scaled(
            arc.sample_x(a, b),
            arc.sample_y(a, b),
            arc.sample_den(a, b),
        ),
{
    let n = arc.d as int;
    let dd: int = 268435456;
    let w = arc.sample_weight(a, b);
    let den = arc.sample_den(a, b);
    let u = dd - n * n;
    let v = 2 * (n * 16384);
    let k = 2 * v;
    let cx = arc.p1.x - arc.p0.x;
    let cy = arc.p1.y - arc.p0.y;
    let sx = arc.p0.x + arc.p1.x;
    let sy = arc.p0.y + arc.p1.y;
    let x = arc.sample_x(a, b);
    let y = arc.sample_y(a, b);
    let r2 = arc.spec_radius2();
    let sr = arc.spec_radius_above();
    let e = arc.spec_extents();
    lemma_weight_positive(a, b, n);
    crate::deviation::lemma_sample_on_circle(arc, a, b);
    // the vector from the centre to the point
    let qx = v * (2 * x - den * sx) + (den * cy) * u;
    let qy = v * (2 * y - den * sy) - (den * cx) * u;
    assert(qx * qx + qy * qy == (den * den) * r2);
    assert(qx * qx >= 0 && qy * qy >= 0) by (nonlinear_arith);
    assert(r2 >= 0) by (nonlinear_arith)
        requires
            qx * qx + qy * qy == (den * den) * r2,
            qx * qx >= 0,
            qy * qy >= 0,
            den > 0,
    ;
    lemma_ceil_sqrt_bounds(r2 as nat);
    assert(qx == k * x - den * (v * sx - cy * u) && qy == k * y - den * (v * sy - (-cx) * u)) by {
        lemma_center_vector(den, v, u, x, sx, cy);
        lemma_center_vector(den, v, u, y, sy, -cx);
        assert((den * (-cx)) * u == -((den * cx) * u)) by (nonlinear_arith);
    }
    let kb = (n * 16384) * (b * b - a * a);
    assert(-(kb * cx) == kb * (-cx) && (-kb) * cy == -(kb * cy) && (-kb) * (-cx) == kb * cx)
        by (nonlinear_arith);
    let ka = (a * b) * (dd + n * n);
    assert(ka * (-cx) == -(ka * cx) && ka * (-cy) == -(ka * cy) && (-sx) * w == -(sx * w) && (-sy)
        * w == -(sy * w) && kb * (-cy) == -(kb * cy)) by (nonlinear_arith);
    // to the right and upwards
    lemma_axis_high(arc.p0.x as int, arc.p1.x as int, cy, n, a, b, sr, r2);
    lemma_axis_high(arc.p0.y as int, arc.p1.y as int, -cx, n, a, b, sr, r2);
    // to the left and downwards: the same of the mirrored arc
    assert((k * (-x) - den * (v * (-sx) - (-cy) * u)) == -qx && (k * (-y) - den * (v * (-sy) - cx
        * u)) == -qy) by (nonlinear_arith)
        requires
            qx == k * x - den * (v * sx - cy * u),
            qy == k * y - den * (v * sy - (-cx) * u),
    ;
    assert((-qx) * (-qx) == qx * qx && (-qy) * (-qy) == qy * qy) by (nonlinear_arith);
    lemma_axis_high(-arc.p0.x, -arc.p1.x, -cy, n, a, b, sr, r2);
    lemma_axis_high(-arc.p0.y, -arc.p1.y, cx, n, a, b, sr, r2);
    let hx = spec_axis_high(arc.p0.x as int, arc.p1.x as int, cx, cy, n, sr);
    let hy = spec_axis_high(arc.p0.y as int, arc.p1.y as int, cy, -cx, n, sr);
    let lx = spec_axis_high(-arc.p0.x, -arc.p1.x, -cx, -cy, n, sr);
    let ly = spec_axis_high(-arc.p0.y, -arc.p1.y, -cy, cx, n, sr);
    assert(x <= den * hx && y <= den * hy && -x <= den * lx && -y <= den * ly);
    lemma_axis_high_bounded(arc, arc.p0.x as int, arc.p1.x as int, cx, cy);
    lemma_axis_high_bounded(arc, arc.p0.y as int, arc.p1.y as int, cy, -cx);
    lemma_axis_high_bounded(arc, -arc.p0.x, -arc.p1.x, -cx, -cy);
    lemma_axis_high_bounded(arc, -arc.p0.y, -arc.p1.y, -cy, cx);
    assert(e.max_x == hx && e.max_y == hy && e.min_x == -lx && e.min_y == -ly);
    assert(e.max_x * den == den * hx && e.max_y * den == den * hy && e.min_x * den == -(den * lx)
        && e.min_y * den == -(den * ly)) by (nonlinear_arith)
        requires
            e.max_x == hx,
            e.max_y == hy,
            e.min_x == -lx,
            e.min_y == -ly,
    ;
}

/// The vector from the centre of the circle to a point, from the coordinate
/// of the point and that of the centre.
pub proof fn lemma_center_vector(den: int, v: int, u: int, x: int, s: int, rc: int)
    ensures
        v * (2 * x - den * s) + (den * rc) * u == (2 * v) * x - den * (v * s - rc * u),
{
    assert(v * (2 * x - den * s) == (2 * v) * x - v * (den * s)) by (nonlinear_arith);
    assert(den * (v * s - rc * u) == den * (v * s) - den * (rc * u)) by (nonlinear_arith);
    assert(v * (den * s) == den * (v * s) && (den * rc) * u == den * (rc * u))
        by (nonlinear_arith);
}

/// How far an arc reaches along an axis is a number of moderate size.
pub proof fn lemma_axis_high_bounded(arc: Arc, p0c: int, p1c: int, cc: int, rc: int)
    requires
        arc.wf(),
        -1048576 <= p0c <= 1048576,
        -1048576 <= p1c <= 1048576,
        -2097152 <= cc <= 2097152,
        -2097152 <= rc <= 2097152,
    ensures
        -4611686018427387904 <= spec_axis_high(
            p0c,
            p1c,
            cc,
            rc,
            arc.d as int,
            arc.spec_radius_above(),
        ) <= 4611686018427387904,
{
    let n = arc.d as int;
    let u = CURVATURE_ONE * CURVATURE_ONE - n * n;
    let v = 2 * (n * CURVATURE_ONE);
    let sr = arc.spec_radius_above();
    lemma_square_bound(n, 524288);
    if cc >= 0 && u * cc - v * rc >= 0 {
    } else if cc <= 0 && u * cc + v * rc <= 0 {
    } else {
        assert(n != 0) by (nonlinear_arith)
            requires
                !(cc >= 0 && u * cc - v * rc >= 0),
                !(cc <= 0 && u * cc + v * rc <= 0),
                u == 268435456 - n * n,
                v == 2 * (n * 16384),
        ;
        let k = abs(2 * v);
        assert(k >= 65536) by (nonlinear_arith)
            requires
                k == abs(4 * (n * 16384)),
                n != 0,
        ;
        lemma_mul_bound(v, p0c + p1c, 17179869184, 2097152);
        lemma_mul_bound(rc, u, 2097152, 274877906944);
        let cx = arc.p1.x - arc.p0.x;
        let cy = arc.p1.y - arc.p0.y;
        let g = CURVATURE_ONE * CURVATURE_ONE + n * n;
        lemma_square_bound(cx, 2097152);
        lemma_square_bound(cy, 2097152);
        lemma_square_bound(g, 275146342400);
        lemma_mul_bound(arc.spec_len2(), g * g, 8796093022208, 75705509736098037760000);
        assert(0 <= arc.spec_len2() * (g * g)) by (nonlinear_arith)
            requires
                0 <= arc.spec_len2(),
                0 <= g * g,
        ;
        lemma_ceil_sqrt_le(arc.spec_radius2() as nat, 2305843009213693952);
        let top = signed(2 * v, v * (p0c + p1c) - rc * u) + sr;
        vstd::arithmetic::div_mod::lemma_fundamental_div_mod(-top, k);
        assert(-4611686018427387904 <= -((-top) / k) <= 4611686018427387904) by (nonlinear_arith)
            requires
                -top == k * ((-top) / k) + (-top) % k,
                0 <= (-top) % k < k,
                k >= 65536,
                -4611686018427387904 <= top <= 4611686018427387904,
        ;
    }
}

/// A box that holds a point still holds it after it has grown.
pub proof fn lemma_union_contains(e: Extents, other: Extents, x: int, y: int, den: int)
    requires
        den > 0,
        e.contains_scaled(x, y, den) || other.contains_scaled(x, y, den),
    ensures
        e.union(other).contains_scaled(x, y, den),
{
    let u = e.union(other);
    assert(u.min_x * den <= e.min_x * den && u.min_x * den <= other.min_x * den && u.min_y * den
        <= e.min_y * den && u.min_y * den <= other.min_y * den && u.max_x * den >= e.max_x * den
        && u.max_x * den >= other.max_x * den && u.max_y * den >= e.max_y * den && u.max_y * den
        >= other.max_y * den) by (nonlinear_arith)
        requires
            den > 0,
            u.min_x <= e.min_x,
            u.min_x <= other.min_x,
            u.min_y <= e.min_y,
            u.min_y <= other.min_y,
            u.max_x >= e.max_x,
            u.max_x >= other.max_x,
            u.max_y >= e.max_y,
            u.max_y >= other.max_y,
    ;
}

/// Every point of every arc of a sequence lies in the box of the sequence.
pub proof fn lemma_arcs_in_extents(arcs: Seq<Arc>, i: int, a: int, b: int)
    requires
        arcs_wf(arcs),
        0 <= i < arcs.len(),
        b > 0,
        -b <= a <= b,
    ensures
        arcs[i].sample_den(a, b) > 0,
        spec_arcs_extents(arcs).contains_scaled(
            arcs[i].sample_x(a, b),
            arcs[i].sample_y(a, b),
            arcs[i].sample_den(a, b),
        ),
    decreases arcs.len(),
{
    let rest = arcs.drop_last();
    let last = arcs.last();
    assert(arcs[i].wf());
    lemma_arc_in_extents(arcs[i], a, b);
    if i < arcs.len() - 1 {
        assert(arcs_wf(rest)) by {
            assert forall|j: int| 0 <= j < rest.len() implies (#[trigger] rest[j]).wf() by {
                assert(rest[j] == arcs[j]);
            }
        }
        assert(rest[i] == arcs[i]);
        lemma_arcs_in_extents(rest, i, a, b);
    }
    lemma_union_contains(
        spec_arcs_extents(rest),
        last.spec_extents(),
        arcs[i].sample_x(a, b),
        arcs[i].sample_y(a, b),
        arcs[i].sample_den(a, b),
    );
}

/// Every point of every arc of an arc list lies in the box of the list: the
/// endpoints of the arc at the parameters `-1` and `1`, its apex at `0`, and
/// every point between them.
pub proof fn lemma_extents_hold_arcs(list: Seq<ArcEndpoint>, i: int, a: int, b: int)
    requires
        arc_list_wf(list),
        0 <= i < spec_arcs(list).len(),
        b > 0,
        -b <= a <= b,
    ensures
        spec_arcs(list)[i].sample_den(a, b) > 0,
        spec_extents(list).contains_scaled(
            spec_arcs(list)[i].sample_x(a, b),
            spec_arcs(list)[i].sample_y(a, b),
            spec_arcs(list)[i].sample_den(a, b),
        ),
{
    lemma_arcs_wf(list);
    lemma_arcs_in_extents(spec_arcs(list), i, a, b);
}

/// The box of the arcs `arcs`.
pub fn arcs_extents(arcs: &[Arc]) -> (e: Extents)
    requires
        arcs_wf(arcs@),
    ensures
        e == spec_arcs_extents(arcs@),
{
    let mut e = Extents::empty();
    let mut i: usize = 0;
    while i < arcs.len()
        invariant
            0 <= i <= arcs.len(),
            arcs_wf(arcs@),
            e == spec_arcs_extents(arcs@.subrange(0, i as int)),
        decreases arcs.len() - i,
    {
        let one = arcs[i].extents();
        proof {
            let upto = arcs@.subrange(0, i + 1);
            assert(upto.drop_last() == arcs@.subrange(0, i as int));
            assert(upto.last() == arcs@[i as int]);
        }
        e.extend(&one);
        i += 1;
    }
    assert(arcs@.subrange(0, i as int) == arcs@);
    e
}

/// The box of the arc list `endpoints`: it holds every arc of the list, the
/// bulge of each included. The box of a list without arcs is empty.
pub fn arc_list_extents(endpoints: &[ArcEndpoint]) -> (e: Extents)
    requires
        arc_list_wf(endpoints@),
    ensures
        e == spec_extents(endpoints@),
        endpoints@.len() == 0 ==> e == Extents::spec_empty(),
{
    let arcs = arc_list_arcs(endpoints);
    arcs_extents(arcs.as_slice())
}

} // verus!
