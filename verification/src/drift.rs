//! How far the pieces of a curve lie off the curve.
//!
//! Each halving rounds the control points of the halves to the lattice, by
//! at most half a lattice unit along each axis. A piece that came of `m`
//! halvings therefore lies within `m` half units, along each axis, of the
//! part of the curve that it stands for. The fitter takes the arc of a piece
//! only where it is closer to the piece than the tolerance by that much.

use vstd::prelude::*;
use crate::bound::{lemma_fit_within_tolerance, lemma_halves_keep_to_curve};
use crate::fitter::{
    Bezier,
    lemma_approximate_chain,
    lemma_converged_within_tolerance,
    lemma_max_arcs_positive,
    lemma_split_wf,
    max_arcs,
    spec_approximate,
    spec_converges,
    spec_drift,
    spec_piece_depth,
    spec_piece_depth_from,
    spec_pieces,
    spec_pieces_from,
};
use crate::geometry::Arc;
use crate::numeric::ceil_sqrt;

verus! {

/// Where the piece `i` of `b` lies on `b`: with `m` the number of halvings
/// that gave it, it stands for the parameters from `first / 2^m` to
/// `(first + 1) / 2^m`.
pub open spec fn spec_piece_first_from(
    b: Bezier,
    tolerance: int,
    level: nat,
    depth: nat,
    i: int,
) -> int
    decreases depth,
{
    if depth == 0 || b.spec_accepts(tolerance, level) {
        0
    } else {
        let d1 = (depth - 1) as nat;
        let l = spec_pieces_from(b.spec_left(), tolerance, level + 1, d1).len();
        if i < l {
            spec_piece_first_from(b.spec_left(), tolerance, level + 1, d1, i)
        } else {
            max_arcs(spec_piece_depth_from(b.spec_right(), tolerance, level + 1, d1, i - l))
                + spec_piece_first_from(b.spec_right(), tolerance, level + 1, d1, i - l)
        }
    }
}

/// Where the piece `i` of the curve `b` lies on the curve.
pub open spec fn spec_piece_first(b: Bezier, tolerance: int, depth: nat, i: int) -> int {
    spec_piece_first_from(b, tolerance, 0, depth, i)
}

/// One step of the drift: a piece within `m` half units of a half of the
/// curve is within `m + 1` half units of the curve. `p` is a coordinate of
/// the point of the piece, `h` that of the half and `c` that of the curve,
/// each times the cube of the denominator of its parameter; `w` is two to
/// the power of `m` and `t` the denominator of the parameter of the half.
pub proof fn lemma_drift_step(p: int, h: int, c: int, w: int, t: int, m: int)
    requires
        -(m * ((t * t) * t)) <= 2 * (((w * w) * w) * p - h) <= m * ((t * t) * t),
        -(4 * ((t * t) * t)) <= 8 * h - c <= 4 * ((t * t) * t),
    ensures
        -((m + 1) * (((2 * t) * (2 * t)) * (2 * t))) <= 2 * ((((2 * w) * (2 * w)) * (2 * w)) * p
            - c) <= (m + 1) * (((2 * t) * (2 * t)) * (2 * t)),
{
    let t3 = (t * t) * t;
    let w3 = (w * w) * w;
    assert(((2 * t) * (2 * t)) * (2 * t) == 8 * t3) by (nonlinear_arith)
        requires
            t3 == (t * t) * t,
    ;
    assert(((2 * w) * (2 * w)) * (2 * w) == 8 * w3) by (nonlinear_arith)
        requires
            w3 == (w * w) * w,
    ;
    assert((8 * w3) * p == 8 * (w3 * p)) by (nonlinear_arith);
    assert((m + 1) * (8 * t3) == 8 * (m * t3) + 8 * t3) by (nonlinear_arith);
}

/// Every piece keeps to the curve. The point of the piece `i` at the
/// parameter `k / n` lies within `m` half lattice units, along each axis,
/// of the point of the curve that it stands for, where `m` is the number of
/// halvings that gave the piece, which is at most `depth`: with `w` two to
/// the power of `m`, that point of the curve is the one at the parameter
/// `(first * n + k) / (w * n)`.
pub proof fn lemma_piece_keeps_to_curve(
    b: Bezier,
    tolerance: int,
    depth: nat,
    i: int,
    k: int,
    n: int,
)
    requires
        b.wf(),
        0 <= i < spec_pieces(b, tolerance, depth).len(),
        0 <= k <= n,
        n > 0,
    ensures
        ({
            let piece = spec_pieces(b, tolerance, depth)[i];
            let m = spec_piece_depth(b, tolerance, depth, i);
            let first = spec_piece_first(b, tolerance, depth, i);
            let w = max_arcs(m) as int;
            let t = w * n;
            &&& piece.wf()
            &&& m <= depth
            &&& 0 <= first < w
            &&& 0 <= first * n + k <= t
            &&& -(m * ((t * t) * t)) <= 2 * (((w * w) * w) * piece.spec_point_x(k, n)
                - b.spec_point_x(first * n + k, t)) <= m * ((t * t) * t)
            &&& -(m * ((t * t) * t)) <= 2 * (((w * w) * w) * piece.spec_point_y(k, n)
                - b.spec_point_y(first * n + k, t)) <= m * ((t * t) * t)
        }),
{
    lemma_piece_keeps_to_curve_from(b, tolerance, 0, depth, i, k, n);
}

/// The same of a piece that came of `level` halvings itself.
#[verifier::rlimit(50)]
pub proof fn lemma_piece_keeps_to_curve_from(
    b: Bezier,
    tolerance: int,
    level: nat,
    depth: nat,
    i: int,
    k: int,
    n: int,
)
    requires
        b.wf(),
        0 <= i < spec_pieces_from(b, tolerance, level, depth).len(),
        0 <= k <= n,
        n > 0,
    ensures
        ({
            let piece = spec_pieces_from(b, tolerance, level, depth)[i];
            let m = spec_piece_depth_from(b, tolerance, level, depth, i);
            let first = spec_piece_first_from(b, tolerance, level, depth, i);
            let w = max_arcs(m) as int;
            let t = w * n;
            &&& piece.wf()
            &&& m <= depth
            &&& 0 <= first < w
            &&& 0 <= first * n + k <= t
            &&& -(m * ((t * t) * t)) <= 2 * (((w * w) * w) * piece.spec_point_x(k, n)
                - b.spec_point_x(first * n + k, t)) <= m * ((t * t) * t)
            &&& -(m * ((t * t) * t)) <= 2 * (((w * w) * w) * piece.spec_point_y(k, n)
                - b.spec_point_y(first * n + k, t)) <= m * ((t * t) * t)
        }),
    decreases depth,
{
    let piece = spec_pieces_from(b, tolerance, level, depth)[i];
    let m = spec_piece_depth_from(b, tolerance, level, depth, i);
    let first = spec_piece_first_from(b, tolerance, level, depth, i);
    if depth == 0 || b.spec_accepts(tolerance, level) {
        assert(max_arcs(0) == 1);
        assert(piece == b);
        assert(1 * n == n && 0 * n + k == k);
        assert(((1 * 1) * 1) * piece.spec_point_x(k, n) == piece.spec_point_x(k, n) && ((1 * 1)
            * 1) * piece.spec_point_y(k, n) == piece.spec_point_y(k, n)) by (nonlinear_arith);
        let t = max_arcs(m) * n;
        assert(t == n);
        assert(m * ((t * t) * t) == 0) by (nonlinear_arith)
            requires
                m == 0,
        ;
    } else {
        let d1 = (depth - 1) as nat;
        let lp = spec_pieces_from(b.spec_left(), tolerance, level + 1, d1);
        let rp = spec_pieces_from(b.spec_right(), tolerance, level + 1, d1);
        lemma_split_wf(b);
        assert(spec_pieces_from(b, tolerance, level, depth) == lp + rp);
        let in_left = i < lp.len();
        let half = if in_left {
            b.spec_left()
        } else {
            b.spec_right()
        };
        let ih: int = if in_left {
            i
        } else {
            i - lp.len()
        };
        lemma_piece_keeps_to_curve_from(half, tolerance, level + 1, d1, ih, k, n);
        let mh = spec_piece_depth_from(half, tolerance, level + 1, d1, ih);
        let fh = spec_piece_first_from(half, tolerance, level + 1, d1, ih);
        let wh = max_arcs(mh) as int;
        let th = wh * n;
        let kh = fh * n + k;
        assert(piece == spec_pieces_from(half, tolerance, level + 1, d1)[ih]);
        assert(m == mh + 1);
        assert(max_arcs(m) == 2 * max_arcs(mh));
        let w = max_arcs(m) as int;
        let t = w * n;
        assert(t == 2 * th) by (nonlinear_arith)
            requires
                t == w * n,
                th == wh * n,
                w == 2 * wh,
        ;
        lemma_max_arcs_positive(mh);
        assert(th > 0) by (nonlinear_arith)
            requires
                th == wh * n,
                wh > 0,
                n > 0,
        ;
        lemma_halves_keep_to_curve(b, kh, th);
        if in_left {
            assert(first == fh);
            assert(first * n + k == kh);
            lemma_drift_step(
                piece.spec_point_x(k, n),
                half.spec_point_x(kh, th),
                b.spec_point_x(kh, 2 * th),
                wh,
                th,
                mh as int,
            );
            lemma_drift_step(
                piece.spec_point_y(k, n),
                half.spec_point_y(kh, th),
                b.spec_point_y(kh, 2 * th),
                wh,
                th,
                mh as int,
            );
        } else {
            assert(first == wh + fh);
            assert(first * n + k == th + kh) by (nonlinear_arith)
                requires
                    first == wh + fh,
                    th == wh * n,
                    kh == fh * n + k,
            ;
            lemma_drift_step(
                piece.spec_point_x(k, n),
                half.spec_point_x(kh, th),
                b.spec_point_x(th + kh, 2 * th),
                wh,
                th,
                mh as int,
            );
            lemma_drift_step(
                piece.spec_point_y(k, n),
                half.spec_point_y(kh, th),
                b.spec_point_y(th + kh, 2 * th),
                wh,
                th,
                mh as int,
            );
        }
    }
}

/// The drift of a piece is at least as long as the way by which the
/// roundings of its halvings may have moved a point: the square of twice the
/// drift is at least that of `m` half units along both axes.
pub proof fn lemma_drift_covers(level: nat)
    ensures
        spec_drift(level) >= 0,
        2 * (level * level) <= (2 * spec_drift(level)) * (2 * spec_drift(level)),
{
    let r = ceil_sqrt(2 * (level * level)) as int;
    let e = spec_drift(level);
    crate::numeric::lemma_ceil_sqrt_bounds(2 * (level * level));
    crate::deviation::lemma_ceil_quotient_bounded(r, 2);
    assert(r * r <= (2 * e) * (2 * e)) by (nonlinear_arith)
        requires
            0 <= r <= e * 2,
    ;
}

/// `arc` keeps to the curve `b` where it stands for the piece `i` of the
/// curve, at the parameter `k / n` of the piece. With `m` the number of
/// halvings that gave the piece, the point of the piece lies within
/// `tolerance` less the drift of `m` halvings of the arc; and it lies within
/// `m` half lattice units, along each axis, of the point of the curve that
/// it stands for, which is no farther than that drift: the point of the
/// curve at the parameter `(first * n + k) / (w * n)`, with `w` two to the
/// power of `m`. So that point of the curve lies no farther than `tolerance`
/// from the arc.
pub open spec fn spec_keeps_to_curve(
    b: Bezier,
    tolerance: int,
    depth: nat,
    i: int,
    arc: Arc,
    k: int,
    n: int,
) -> bool {
    let piece = spec_pieces(b, tolerance, depth)[i];
    let m = spec_piece_depth(b, tolerance, depth, i);
    let first = spec_piece_first(b, tolerance, depth, i);
    let w = max_arcs(m) as int;
    let t = w * n;
    &&& tolerance - spec_drift(m) >= 0
    &&& arc.spec_within(
        piece.spec_point_x(k, n),
        piece.spec_point_y(k, n),
        (n * n) * n,
        tolerance - spec_drift(m),
    )
    &&& m <= depth
    &&& 0 <= first * n + k <= t
    &&& -(m * ((t * t) * t)) <= 2 * (((w * w) * w) * piece.spec_point_x(k, n) - b.spec_point_x(
        first * n + k,
        t,
    )) <= m * ((t * t) * t)
    &&& -(m * ((t * t) * t)) <= 2 * (((w * w) * w) * piece.spec_point_y(k, n) - b.spec_point_y(
        first * n + k,
        t,
    )) <= m * ((t * t) * t)
    &&& 2 * (m * m) <= (2 * spec_drift(m)) * (2 * spec_drift(m))
}

/// Where the halving converges, the chain keeps to the given curve: each
/// arc of the chain stands for one piece of the curve, and keeps to the
/// curve at every parameter of the piece. So no point of the given curve
/// lies farther than `tolerance` from the arc that stands for it.
pub proof fn lemma_chain_keeps_to_curve(
    b: Bezier,
    tolerance: int,
    depth: nat,
    i: int,
    k: int,
    n: int,
)
    requires
        b.wf(),
        spec_converges(b, tolerance, depth),
        0 <= i < spec_approximate(b, tolerance, depth).len(),
        0 <= k <= n,
        n > 0,
    ensures
        spec_keeps_to_curve(
            b,
            tolerance,
            depth,
            i,
            spec_approximate(b, tolerance, depth)[i],
            k,
            n,
        ),
{
    lemma_approximate_chain(b, tolerance, depth);
    lemma_fit_within_tolerance(b, tolerance, depth, i, k, n);
    lemma_piece_keeps_to_curve(b, tolerance, depth, i, k, n);
    lemma_converged_within_tolerance(b, tolerance, depth, i);
    lemma_drift_covers(spec_piece_depth(b, tolerance, depth, i));
    let piece = spec_pieces(b, tolerance, depth)[i];
    crate::bound::lemma_accepted_within_tolerance(
        piece,
        tolerance,
        spec_piece_depth(b, tolerance, depth, i),
        k,
        n,
    );
}

} // verus!
