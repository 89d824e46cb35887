//! Integer division rounded to the nearest integer, halves away from zero.

use vstd::arithmetic::div_mod::lemma_fundamental_div_mod;
use vstd::prelude::*;

verus! {

/// `n / d` for `n >= 0`, rounded to nearest with halves rounded up.
pub open spec fn div_round_nonneg(n: int, d: int) -> int {
    n / d + if 2 * (n % d) >= d {
        1int
    } else {
        0int
    }
}

/// `n / d` rounded to the nearest integer, halves away from zero.
pub open spec fn div_round(n: int, d: int) -> int {
    if n >= 0 {
        div_round_nonneg(n, d)
    } else {
        -div_round_nonneg(-n, d)
    }
}

proof fn lemma_div_round_nonneg_bounds(n: int, d: int, a: int, b: int)
    requires
        d > 0,
        n >= 0,
        d * a <= n <= d * b,
    ensures
        a <= div_round_nonneg(n, d) <= b,
{
    lemma_fundamental_div_mod(n, d);
    let q = n / d;
    let r = n % d;
    assert(0 <= r < d);
    assert(q >= 0) by (nonlinear_arith)
        requires
            n >= 0,
            d > 0,
            n == d * q + r,
            r < d,
    ;
    assert(q <= b) by (nonlinear_arith)
        requires
            d * q <= n,
            n <= d * b,
            d > 0,
            n == d * q + r,
            r >= 0,
    ;
    if 2 * r >= d {
        assert(q + 1 <= b) by (nonlinear_arith)
            requires
                d * q < n,
                n <= d * b,
                d > 0,
        ;
    }
    assert(a <= q) by (nonlinear_arith)
        requires
            d * a <= n,
            n == d * q + r,
            r < d,
            d > 0,
    ;
}

/// Where `n` lies between `d * a` and `d * b`, so does its rounded quotient
/// between `a` and `b`.
pub proof fn lemma_div_round_bounds(n: int, d: int, a: int, b: int)
    requires
        d > 0,
        d * a <= n <= d * b,
    ensures
        a <= div_round(n, d) <= b,
{
    if n >= 0 {
        lemma_div_round_nonneg_bounds(n, d, a, b);
    } else {
        assert(d * (-b) <= -n <= d * (-a)) by (nonlinear_arith)
            requires
                d * a <= n <= d * b,
        ;
        lemma_div_round_nonneg_bounds(-n, d, -b, -a);
    }
}

/// Rounding is the identity on exact multiples: `div_round(d * k, d) == k`.
pub proof fn lemma_div_round_exact(k: int, d: int)
    requires
        d > 0,
    ensures
        div_round(d * k, d) == k,
{
    lemma_div_round_bounds(d * k, d, k, k);
}

/// Rounding treats `n` and `-n` alike: `div_round(-n, d) == -div_round(n, d)`.
pub proof fn lemma_div_round_symmetric(n: int, d: int)
    requires
        d > 0,
    ensures
        div_round(-n, d) == -div_round(n, d),
{
    if n == 0 {
        assert(div_round_nonneg(0, d) == 0) by {
            lemma_div_round_nonneg_bounds(0, d, 0, 0);
        }
    }
}

/// Computes `div_round(n, d)`.
pub fn div_round_i128(n: i128, d: i128) -> (r: i128)
    requires
        d > 0,
        n > i128::MIN,
    ensures
        r == div_round(n as int, d as int),
{
    let m: i128 = if n >= 0 {
        n
    } else {
        -n
    };
    let q: i128 = m / d;
    let rem: i128 = m % d;
    proof {
        lemma_fundamental_div_mod(m as int, d as int);
        assert(0 <= q) by (nonlinear_arith)
            requires
                m >= 0,
                d > 0,
                m == d * q + rem,
                0 <= rem < d,
        ;
        assert(q <= m) by (nonlinear_arith)
            requires
                m >= 0,
                d > 0,
                m == d * q + rem,
                0 <= rem < d,
        ;
        assert(rem >= d - rem ==> q < m) by (nonlinear_arith)
            requires
                m >= 0,
                d > 0,
                m == d * q + rem,
                0 <= rem < d,
                q >= 0,
        ;
    }
    let rounded: i128 = if rem >= d - rem {
        q + 1
    } else {
        q
    };
    if n >= 0 {
        rounded
    } else {
        -rounded
    }
}

} // verus!
