//! The points of a cubic curve as sums of its control points.
//!
//! The point at the parameter `k / n` is the sum of the control points with
//! the weights `j^3`, `3 j^2 k`, `3 j k^2` and `k^3`, where `j = n - k`, over
//! `n^3`. The weights are not negative and add up to `n^3`, so whatever is a
//! straight-line function of a point is, at a point of the curve, between
//! its values at the control points; and the square of such a function is a
//! sum over the seven products of two weights.

use vstd::prelude::*;

verus! {

/// The weights of the control points at the parameter `k / n`, the factor
/// three of the inner two left out, and their products.
#[verifier::rlimit(50)]
pub proof fn lemma_weights(k: int, n: int)
    requires
        0 <= k <= n,
    ensures
        ({
            let j = n - k;
            let m0 = (j * j) * j;
            let m1 = (j * j) * k;
            let m2 = j * (k * k);
            let m3 = (k * k) * k;
            &&& m0 >= 0 && m1 >= 0 && m2 >= 0 && m3 >= 0
            &&& m0 + 3 * m1 + 3 * m2 + m3 == (n * n) * n
            &&& m1 * m1 == m0 * m2
            &&& m1 * m2 == m0 * m3
            &&& m2 * m2 == m1 * m3
            &&& m0 * m0 >= 0 && m0 * m1 >= 0 && m0 * m2 >= 0 && m0 * m3 >= 0 && m1 * m3 >= 0 && m2
                * m3 >= 0 && m3 * m3 >= 0
        }),
{
    let j = n - k;
    let jj = j * j;
    let kk = k * k;
    let jk = j * k;
    let m0 = jj * j;
    let m1 = jj * k;
    let m2 = j * kk;
    let m3 = kk * k;
    assert(jj >= 0 && kk >= 0 && jk >= 0) by (nonlinear_arith)
        requires
            jj == j * j,
            kk == k * k,
            jk == j * k,
            j >= 0,
            k >= 0,
    ;
    assert(m0 >= 0 && m1 >= 0 && m2 >= 0 && m3 >= 0) by (nonlinear_arith)
        requires
            m0 == jj * j,
            m1 == jj * k,
            m2 == j * kk,
            m3 == kk * k,
            jj >= 0,
            kk >= 0,
            j >= 0,
            k >= 0,
    ;
    assert(m0 * m0 >= 0 && m0 * m1 >= 0 && m0 * m2 >= 0 && m0 * m3 >= 0 && m1 * m3 >= 0 && m2 * m3
        >= 0 && m3 * m3 >= 0) by (nonlinear_arith)
        requires
            m0 >= 0,
            m1 >= 0,
            m2 >= 0,
            m3 >= 0,
    ;
    // the cube of a sum
    let nn = n * n;
    assert(nn == jj + 2 * jk + kk) by (nonlinear_arith)
        requires
            nn == n * n,
            n == j + k,
            jj == j * j,
            kk == k * k,
            jk == j * k,
    ;
    assert(nn * n == jj * j + jj * k + 2 * (jk * j) + 2 * (jk * k) + kk * j + kk * k)
        by (nonlinear_arith)
        requires
            nn == jj + 2 * jk + kk,
            n == j + k,
    ;
    assert(jk * j == jj * k && jk * k == j * kk && kk * j == j * kk) by (nonlinear_arith)
        requires
            jj == j * j,
            kk == k * k,
            jk == j * k,
    ;
    // the products of the weights
    assert(m1 == j * jk && m2 == jk * k && m0 * m2 == (jj * jj) * kk && m1 * m1 == (jj * jj) * kk)
        by (nonlinear_arith)
        requires
            m0 == jj * j,
            m1 == jj * k,
            m2 == j * kk,
            jj == j * j,
            kk == k * k,
            jk == j * k,
    ;
    assert(m1 * m2 == (jj * kk) * jk && m0 * m3 == (jj * kk) * jk) by (nonlinear_arith)
        requires
            m0 == jj * j,
            m1 == jj * k,
            m2 == j * kk,
            m3 == kk * k,
            jk == j * k,
    ;
    assert(m2 * m2 == (kk * kk) * jj && m1 * m3 == (kk * kk) * jj) by (nonlinear_arith)
        requires
            m1 == jj * k,
            m2 == j * kk,
            m3 == kk * k,
            jj == j * j,
            kk == k * k,
    ;
}

/// A straight-line function of a point, at a weighted sum of four points, is
/// the weighted sum of its values at the four points: of `al * x + be * y +
/// ga * s` at points with the scales one, three, three and one.
#[verifier::rlimit(50)]
pub proof fn lemma_linear(
    al: int,
    be: int,
    ga: int,
    x0: int,
    y0: int,
    x1: int,
    y1: int,
    x2: int,
    y2: int,
    x3: int,
    y3: int,
    m0: int,
    m1: int,
    m2: int,
    m3: int,
)
    ensures
        al * (m0 * x0 + m1 * x1 + m2 * x2 + m3 * x3) + be * (m0 * y0 + m1 * y1 + m2 * y2 + m3 * y3)
            + ga * (m0 + 3 * m1 + 3 * m2 + m3) == m0 * (al * x0 + be * y0 + ga) + m1 * (al * x1
            + be * y1 + 3 * ga) + m2 * (al * x2 + be * y2 + 3 * ga) + m3 * (al * x3 + be * y3
            + ga),
{
    lemma_spread(al, m0, x0, m1, x1, m2, x2, m3, x3);
    lemma_spread(be, m0, y0, m1, y1, m2, y2, m3, y3);
    assert(ga * (m0 + 3 * m1 + 3 * m2 + m3) == m0 * ga + m1 * (3 * ga) + m2 * (3 * ga) + m3 * ga)
        by (nonlinear_arith);
    assert(m0 * (al * x0 + be * y0 + ga) == m0 * (al * x0) + m0 * (be * y0) + m0 * ga && m3 * (al
        * x3 + be * y3 + ga) == m3 * (al * x3) + m3 * (be * y3) + m3 * ga) by (nonlinear_arith);
    assert(m1 * (al * x1 + be * y1 + 3 * ga) == m1 * (al * x1) + m1 * (be * y1) + m1 * (3 * ga)
        && m2 * (al * x2 + be * y2 + 3 * ga) == m2 * (al * x2) + m2 * (be * y2) + m2 * (3 * ga))
        by (nonlinear_arith);
}

/// A factor taken into a weighted sum.
pub proof fn lemma_spread(
    al: int,
    m0: int,
    x0: int,
    m1: int,
    x1: int,
    m2: int,
    x2: int,
    m3: int,
    x3: int,
)
    ensures
        al * (m0 * x0 + m1 * x1 + m2 * x2 + m3 * x3) == m0 * (al * x0) + m1 * (al * x1) + m2 * (al
            * x2) + m3 * (al * x3),
{
    let t0 = m0 * x0;
    let t1 = m1 * x1;
    let t2 = m2 * x2;
    let t3 = m3 * x3;
    assert(al * (t0 + t1 + t2 + t3) == al * t0 + al * t1 + al * t2 + al * t3) by (nonlinear_arith);
    assert(al * (m0 * x0) == m0 * (al * x0)) by (nonlinear_arith);
    assert(al * (m1 * x1) == m1 * (al * x1)) by (nonlinear_arith);
    assert(al * (m2 * x2) == m2 * (al * x2)) by (nonlinear_arith);
    assert(al * (m3 * x3) == m3 * (al * x3)) by (nonlinear_arith);
}

/// The product of two weighted sums, ordered by the products of the weights.
#[verifier::rlimit(50)]
pub proof fn lemma_bilinear(
    m0: int,
    m1: int,
    m2: int,
    m3: int,
    a0: int,
    a1: int,
    a2: int,
    a3: int,
    c0: int,
    c1: int,
    c2: int,
    c3: int,
)
    requires
        m1 * m1 == m0 * m2,
        m1 * m2 == m0 * m3,
        m2 * m2 == m1 * m3,
    ensures
        (m0 * a0 + m1 * a1 + m2 * a2 + m3 * a3) * (m0 * c0 + m1 * c1 + m2 * c2 + m3 * c3) == (m0
            * m0) * (a0 * c0) + (m0 * m1) * (a0 * c1 + a1 * c0) + (m0 * m2) * (a0 * c2 + a1 * c1
            + a2 * c0) + (m0 * m3) * (a0 * c3 + a1 * c2 + a2 * c1 + a3 * c0) + (m1 * m3) * (a1
            * c3 + a2 * c2 + a3 * c1) + (m2 * m3) * (a2 * c3 + a3 * c2) + (m3 * m3) * (a3 * c3),
{
    let t0 = m0 * a0;
    let t1 = m1 * a1;
    let t2 = m2 * a2;
    let t3 = m3 * a3;
    let s0 = m0 * c0;
    let s1 = m1 * c1;
    let s2 = m2 * c2;
    let s3 = m3 * c3;
    assert((t0 + t1 + t2 + t3) * (s0 + s1 + s2 + s3) == t0 * s0 + t0 * s1 + t0 * s2 + t0 * s3 + t1
        * s0 + t1 * s1 + t1 * s2 + t1 * s3 + t2 * s0 + t2 * s1 + t2 * s2 + t2 * s3 + t3 * s0 + t3
        * s1 + t3 * s2 + t3 * s3) by (nonlinear_arith);
    lemma_pair(m0, a0, m0, c0);
    lemma_pair(m0, a0, m1, c1);
    lemma_pair(m0, a0, m2, c2);
    lemma_pair(m0, a0, m3, c3);
    lemma_pair(m1, a1, m0, c0);
    lemma_pair(m1, a1, m1, c1);
    lemma_pair(m1, a1, m2, c2);
    lemma_pair(m1, a1, m3, c3);
    lemma_pair(m2, a2, m0, c0);
    lemma_pair(m2, a2, m1, c1);
    lemma_pair(m2, a2, m2, c2);
    lemma_pair(m2, a2, m3, c3);
    lemma_pair(m3, a3, m0, c0);
    lemma_pair(m3, a3, m1, c1);
    lemma_pair(m3, a3, m2, c2);
    lemma_pair(m3, a3, m3, c3);
    assert(m1 * m0 == m0 * m1 && m2 * m0 == m0 * m2 && m3 * m0 == m0 * m3 && m2 * m1 == m1 * m2
        && m3 * m1 == m1 * m3 && m3 * m2 == m2 * m3) by (nonlinear_arith);
    let p0 = m0 * m0;
    let p1 = m0 * m1;
    let p2 = m0 * m2;
    let p3 = m0 * m3;
    let p4 = m1 * m3;
    let p5 = m2 * m3;
    let p6 = m3 * m3;
    assert(p1 * (a0 * c1 + a1 * c0) == p1 * (a0 * c1) + p1 * (a1 * c0)) by (nonlinear_arith);
    assert(p2 * (a0 * c2 + a1 * c1 + a2 * c0) == p2 * (a0 * c2) + p2 * (a1 * c1) + p2 * (a2 * c0))
        by (nonlinear_arith);
    assert(p3 * (a0 * c3 + a1 * c2 + a2 * c1 + a3 * c0) == p3 * (a0 * c3) + p3 * (a1 * c2) + p3
        * (a2 * c1) + p3 * (a3 * c0)) by (nonlinear_arith);
    assert(p4 * (a1 * c3 + a2 * c2 + a3 * c1) == p4 * (a1 * c3) + p4 * (a2 * c2) + p4 * (a3 * c1))
        by (nonlinear_arith);
    assert(p5 * (a2 * c3 + a3 * c2) == p5 * (a2 * c3) + p5 * (a3 * c2)) by (nonlinear_arith);
}

/// A product of two products, the factors put in pairs.
pub proof fn lemma_pair(m: int, a: int, n: int, c: int)
    ensures
        (m * a) * (n * c) == (m * n) * (a * c),
{
    assert((m * a) * (n * c) == (m * n) * (a * c)) by (nonlinear_arith);
}

/// A sum over the products of the weights is bounded where each of its terms
/// is: the products are not negative, and with the numbers of ways to choose
/// from six they add up to the sixth power.
#[verifier::rlimit(50)]
pub proof fn lemma_bounded_sum(
    p0: int,
    p1: int,
    p2: int,
    p3: int,
    p4: int,
    p5: int,
    p6: int,
    h0: int,
    h1: int,
    h2: int,
    h3: int,
    h4: int,
    h5: int,
    h6: int,
    lo: int,
    hi: int,
)
    requires
        p0 >= 0 && p1 >= 0 && p2 >= 0 && p3 >= 0 && p4 >= 0 && p5 >= 0 && p6 >= 0,
        -lo <= h0 <= hi,
        -(6 * lo) <= h1 <= 6 * hi,
        -(15 * lo) <= h2 <= 15 * hi,
        -(20 * lo) <= h3 <= 20 * hi,
        -(15 * lo) <= h4 <= 15 * hi,
        -(6 * lo) <= h5 <= 6 * hi,
        -lo <= h6 <= hi,
    ensures
        -(lo * (p0 + 6 * p1 + 15 * p2 + 20 * p3 + 15 * p4 + 6 * p5 + p6)) <= p0 * h0 + p1 * h1 + p2
            * h2 + p3 * h3 + p4 * h4 + p5 * h5 + p6 * h6,
        p0 * h0 + p1 * h1 + p2 * h2 + p3 * h3 + p4 * h4 + p5 * h5 + p6 * h6 <= hi * (p0 + 6 * p1
            + 15 * p2 + 20 * p3 + 15 * p4 + 6 * p5 + p6),
{
    lemma_term(p0, h0, lo, hi, 1);
    lemma_term(p1, h1, lo, hi, 6);
    lemma_term(p2, h2, lo, hi, 15);
    lemma_term(p3, h3, lo, hi, 20);
    lemma_term(p4, h4, lo, hi, 15);
    lemma_term(p5, h5, lo, hi, 6);
    lemma_term(p6, h6, lo, hi, 1);
    assert(hi * (p0 + 6 * p1 + 15 * p2 + 20 * p3 + 15 * p4 + 6 * p5 + p6) == hi * p0 + 6 * (hi
        * p1) + 15 * (hi * p2) + 20 * (hi * p3) + 15 * (hi * p4) + 6 * (hi * p5) + hi * p6)
        by (nonlinear_arith);
    assert(lo * (p0 + 6 * p1 + 15 * p2 + 20 * p3 + 15 * p4 + 6 * p5 + p6) == lo * p0 + 6 * (lo
        * p1) + 15 * (lo * p2) + 20 * (lo * p3) + 15 * (lo * p4) + 6 * (lo * p5) + lo * p6)
        by (nonlinear_arith);
}

/// One bounded term of a sum.
pub proof fn lemma_term(p: int, h: int, lo: int, hi: int, c: int)
    requires
        p >= 0,
        -(c * lo) <= h <= c * hi,
    ensures
        -(c * (lo * p)) <= p * h <= c * (hi * p),
{
    assert(-(c * (lo * p)) <= p * h <= c * (hi * p)) by (nonlinear_arith)
        requires
            p >= 0,
            -(c * lo) <= h <= c * hi,
    ;
}

} // verus!
