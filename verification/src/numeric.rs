//! Exact integer helpers: square roots and divisions with a stated rounding.

use vstd::prelude::*;
use vstd::arithmetic::div_mod::lemma_fundamental_div_mod_converse;

verus! {

/// `s` is the integer square root of `n`: the largest natural number whose
/// square does not exceed `n`.
pub open spec fn is_isqrt(n: nat, s: nat) -> bool {
    s * s <= n && n < (s + 1) * (s + 1)
}

/// The integer square root of `n`.
pub open spec fn isqrt(n: nat) -> nat {
    choose|s: nat| is_isqrt(n, s)
}

/// The quotient `a / b` rounded towards minus infinity, for a positive `b`.
pub open spec fn floor_div(a: int, b: int) -> int {
    a / b
}

/// The quotient `a / b` rounded towards plus infinity, for a positive `b`.
pub open spec fn ceil_div(a: int, b: int) -> int {
    -((-a) / b)
}

/// The quotient `a / b` rounded to the nearest integer, halves upwards, for a
/// positive `b`.
pub open spec fn round_div(a: int, b: int) -> int {
    (2 * a + b) / (2 * b)
}

/// The quotient `a / b` rounded to the nearest integer, halves away from
/// zero, for a positive `b`: the quotient of `-a` is the negative of that of
/// `a`.
pub open spec fn round_away(a: int, b: int) -> int {
    signed(a, round_div(abs(a), b))
}

/// The absolute value of `a`.
pub open spec fn abs(a: int) -> int {
    if a < 0 {
        -a
    } else {
        a
    }
}

/// `v` with the sign of `k` taken into it: `-v` for a negative `k`.
pub open spec fn signed(k: int, v: int) -> int {
    if k < 0 {
        -v
    } else {
        v
    }
}

/// `v` limited to the interval from `lo` to `hi`.
pub open spec fn clamp(v: int, lo: int, hi: int) -> int {
    if v < lo {
        lo
    } else if v > hi {
        hi
    } else {
        v
    }
}

/// The least natural number whose square is at least `n`.
pub open spec fn ceil_sqrt(n: nat) -> nat {
    let s = isqrt(n);
    if s * s == n {
        s
    } else {
        s + 1
    }
}

/// A number has at most one integer square root.
pub proof fn lemma_isqrt_unique(n: nat, s: nat, t: nat)
    requires
        is_isqrt(n, s),
        is_isqrt(n, t),
    ensures
        s == t,
{
    if s < t {
        assert((s + 1) * (s + 1) <= t * t) by (nonlinear_arith)
            requires
                s + 1 <= t,
        ;
    } else if t < s {
        assert((t + 1) * (t + 1) <= s * s) by (nonlinear_arith)
            requires
                t + 1 <= s,
        ;
    }
}

/// Whatever meets the defining bounds is the integer square root.
pub proof fn lemma_isqrt_is(n: nat, s: nat)
    requires
        is_isqrt(n, s),
    ensures
        isqrt(n) == s,
{
    lemma_isqrt_unique(n, s, isqrt(n));
}

/// A product is bounded by the product of the bounds of its factors.
pub proof fn lemma_mul_bound(a: int, b: int, ba: int, bb: int)
    requires
        -ba <= a <= ba,
        -bb <= b <= bb,
    ensures
        -(ba * bb) <= a * b <= ba * bb,
{
    assert(-(ba * bb) <= a * b <= ba * bb) by (nonlinear_arith)
        requires
            -ba <= a <= ba,
            -bb <= b <= bb,
    ;
}

/// A square is bounded by the square of a bound of its root, and is not negative.
pub proof fn lemma_square_bound(a: int, ba: int)
    requires
        -ba <= a <= ba,
    ensures
        0 <= a * a <= ba * ba,
{
    assert(0 <= a * a <= ba * ba) by (nonlinear_arith)
        requires
            -ba <= a <= ba,
    ;
}

/// A quotient rounded to the nearest is bounded as the exact quotient is.
pub proof fn lemma_round_div_bound(a: int, b: int, k: int)
    requires
        b > 0,
        -(k * b) <= a <= k * b,
    ensures
        -k <= round_div(a, b) <= k,
{
    let q = (2 * a + b) / (2 * b);
    let r = (2 * a + b) % (2 * b);
    vstd::arithmetic::div_mod::lemma_fundamental_div_mod(2 * a + b, 2 * b);
    assert(-k <= q <= k) by (nonlinear_arith)
        requires
            2 * a + b == (2 * b) * q + r,
            0 <= r < 2 * b,
            b > 0,
            -(k * b) <= a <= k * b,
    ;
}

/// A quotient rounded to the nearest, halves away from zero, is bounded as
/// the exact quotient is, and the quotient of the negative is the negative.
pub proof fn lemma_round_away_bound(a: int, b: int, k: int)
    requires
        b > 0,
        -(k * b) <= a <= k * b,
    ensures
        -k <= round_away(a, b) <= k,
        round_away(-a, b) == -round_away(a, b),
{
    lemma_round_div_bound(abs(a), b, k);
    lemma_round_div_bound(0, b, 0);
}

/// A quotient rounded to the nearest is off the exact quotient by a half at
/// most.
pub proof fn lemma_round_away_error(a: int, b: int)
    requires
        b > 0,
    ensures
        -b <= 2 * (b * round_away(a, b) - a) <= b,
{
    let m = abs(a);
    let q = (2 * m + b) / (2 * b);
    let r = (2 * m + b) % (2 * b);
    vstd::arithmetic::div_mod::lemma_fundamental_div_mod(2 * m + b, 2 * b);
    assert(-b <= 2 * (b * q - m) <= b) by (nonlinear_arith)
        requires
            2 * m + b == (2 * b) * q + r,
            0 <= r < 2 * b,
    ;
    assert(b * (-q) == -(b * q)) by (nonlinear_arith);
}

/// The rounded-up square root of a number is at most whatever has a square
/// that is at least the number.
pub proof fn lemma_ceil_sqrt_le(n: nat, m: nat)
    requires
        n <= m * m,
    ensures
        ceil_sqrt(n) <= m,
{
    let s = isqrt(n);
    assert(is_isqrt(n, s)) by {
        lemma_isqrt_exists(n);
    }
    if s * s == n {
        if s > m {
            assert(s * s > m * m) by (nonlinear_arith)
                requires
                    s > m,
                    m >= 0,
            ;
        }
    } else {
        if s + 1 > m {
            assert(s * s >= m * m) by (nonlinear_arith)
                requires
                    s >= m,
                    m >= 0,
            ;
        }
    }
}

/// The square of the rounded-up square root is at least the number.
pub proof fn lemma_ceil_sqrt_bounds(n: nat)
    ensures
        n <= ceil_sqrt(n) * ceil_sqrt(n),
{
    lemma_isqrt_exists(n);
}

/// Every natural number has an integer square root.
pub proof fn lemma_isqrt_exists(n: nat)
    ensures
        is_isqrt(n, isqrt(n)),
    decreases n,
{
    if n == 0 {
        assert(is_isqrt(0, 0)) by (nonlinear_arith);
    } else {
        lemma_isqrt_exists((n - 1) as nat);
        let s = isqrt((n - 1) as nat);
        if (s + 1) * (s + 1) <= n {
            assert((s + 1) * (s + 1) == n);
            assert(n < (s + 2) * (s + 2)) by (nonlinear_arith)
                requires
                    (s + 1) * (s + 1) == n,
            ;
            assert(is_isqrt(n, s + 1));
        } else {
            assert(s * s <= n);
            assert(is_isqrt(n, s));
        }
    }
}

/// The integer square root of `n`.
pub fn isqrt_u128(n: u128) -> (s: u128)
    ensures
        is_isqrt(n as nat, s as nat),
        s == isqrt(n as nat),
        s < 0x1_0000_0000_0000_0000,
{
    let mut lo: u128 = 0;
    let mut hi: u128 = 0x1_0000_0000_0000_0000;
    assert(hi * hi > n) by (nonlinear_arith)
        requires
            hi == 0x1_0000_0000_0000_0000,
            n <= u128::MAX,
    ;
    while hi - lo > 1
        invariant
            lo < hi <= 0x1_0000_0000_0000_0000,
            lo * lo <= n,
            n < hi * hi,
        decreases hi - lo,
    {
        let mid: u128 = lo + (hi - lo) / 2;
        assert(mid * mid <= u128::MAX) by (nonlinear_arith)
            requires
                0 <= mid <= 0xffff_ffff_ffff_ffff,
        ;
        if mid * mid <= n {
            lo = mid;
        } else {
            hi = mid;
        }
    }
    proof {
        assert(hi == lo + 1);
        lemma_isqrt_is(n as nat, lo as nat);
    }
    lo
}

/// The least number whose square is at least `n`.
pub fn ceil_sqrt_u128(n: u128) -> (s: u128)
    ensures
        s == ceil_sqrt(n as nat),
        s <= 0x1_0000_0000_0000_0000,
        n <= s * s,
        s > 0 ==> (s - 1) * (s - 1) < n,
{
    let r: u128 = isqrt_u128(n);
    assert(r * r <= u128::MAX) by (nonlinear_arith)
        requires
            0 <= r <= 0xffff_ffff_ffff_ffff,
    ;
    if r * r == n {
        assert(r > 0 ==> (r - 1) * (r - 1) < r * r) by (nonlinear_arith);
        r
    } else {
        assert((r + 1) * (r + 1) == r * r + 2 * r + 1) by (nonlinear_arith);
        r + 1
    }
}

/// `a / b` rounded towards minus infinity.
pub fn div_floor(a: i128, b: i128) -> (q: i128)
    requires
        b > 0,
    ensures
        q == floor_div(a as int, b as int),
        a >= 0 ==> 0 <= q <= a,
        a < 0 ==> a <= q < 0,
{
    if a >= 0 {
        let t: i128 = a / b;
        proof {
            vstd::arithmetic::div_mod::lemma_fundamental_div_mod(a as int, b as int);
            assert(0 <= t <= a) by (nonlinear_arith)
                requires
                    a == b * t + (a as int) % (b as int),
                    0 <= (a as int) % (b as int) < b,
                    a >= 0,
                    b > 0,
            ;
        }
        t
    } else {
        let m: i128 = -(a + 1);
        let t: i128 = m / b;
        proof {
            vstd::arithmetic::div_mod::lemma_fundamental_div_mod(m as int, b as int);
            assert(0 <= t <= m) by (nonlinear_arith)
                requires
                    m == b * t + (m as int) % (b as int),
                    0 <= (m as int) % (b as int) < b,
                    m >= 0,
                    b > 0,
            ;
            let r: int = (m as int) % (b as int);
            assert((-t - 1) * b + (b - 1 - r) == a) by (nonlinear_arith)
                requires
                    m == b * t + r,
                    a == -(m + 1),
            ;
            lemma_fundamental_div_mod_converse(a as int, b as int, -t - 1, b - 1 - r);
        }
        -t - 1
    }
}

/// `a / b` rounded towards plus infinity.
pub fn div_ceil(a: i128, b: i128) -> (q: i128)
    requires
        b > 0,
        a > i128::MIN,
    ensures
        q == ceil_div(a as int, b as int),
        a >= 0 ==> 0 <= q <= a,
        a < 0 ==> a <= q <= 0,
{
    -div_floor(-a, b)
}

/// `a / b` rounded to the nearest integer, halves upwards.
pub fn div_round(a: i128, b: i128) -> (q: i128)
    requires
        b > 0,
        -0x2000_0000_0000_0000_0000_0000_0000_0000 <= a < 0x2000_0000_0000_0000_0000_0000_0000_0000,
        b < 0x2000_0000_0000_0000_0000_0000_0000_0000,
    ensures
        q == round_div(a as int, b as int),
{
    div_floor(2 * a + b, 2 * b)
}

/// `a / b` rounded to the nearest integer, halves away from zero.
pub fn div_round_away(a: i128, b: i128) -> (q: i128)
    requires
        b > 0,
        -0x2000_0000_0000_0000_0000_0000_0000_0000 < a < 0x2000_0000_0000_0000_0000_0000_0000_0000,
        b < 0x2000_0000_0000_0000_0000_0000_0000_0000,
    ensures
        q == round_away(a as int, b as int),
{
    if a < 0 {
        let r: i128 = div_round(-a, b);
        proof {
            assert(-((-a) * b) <= -a <= (-a) * b) by (nonlinear_arith)
                requires
                    b >= 1,
                    a < 0,
            ;
            lemma_round_div_bound(-a as int, b as int, -a as int);
        }
        -r
    } else {
        div_round(a, b)
    }
}

} // verus!
