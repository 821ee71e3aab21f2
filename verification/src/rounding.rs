//! Nearest-integer division with ties rounded away from zero.
//!
//! Every basis and value computation in the ledger multiplies a quantity by a
//! price per unit and divides by the unit scale.  Truncating division would
//! introduce a systematic downward bias across many small matches, so the
//! ledger rounds to the nearest integer instead, resolving ties away from
//! zero.  The consistent tie direction is what keeps repeated proportional
//! splits from leaking or duplicating a unit (see `lemma_rounded_div_diff`).
use vstd::prelude::*;

verus! {

use vstd::arithmetic::div_mod::{
    lemma_fundamental_div_mod,
    lemma_fundamental_div_mod_converse,
    lemma_div_is_ordered,
    lemma_hoist_over_denominator,
};

/// Magnitude of an integer.
pub open spec fn abs_int(x: int) -> int {
    if x < 0 {
        -x
    } else {
        x
    }
}

/// `n / d` rounded to the nearest integer, ties away from zero.
///
/// On magnitudes `a = |n|`, `b = |d|` the nearest integer with ties rounded
/// up is `(2a + b) / (2b)` (integer division); the sign of the result is the
/// sign of the exact quotient.
pub open spec fn rounded_div(n: int, d: int) -> int
    recommends
        d != 0,
{
    let a = abs_int(n);
    let b = abs_int(d);
    let m = (2 * a + b) / (2 * b);
    if (n < 0) == (d < 0) {
        m
    } else {
        -m
    }
}

/// Executable nearest-integer division, ties away from zero.
///
/// The 128-bit width lets callers divide a product of two 64-bit quantities
/// without overflow.  A zero denominator is an arithmetic fault and is ruled
/// out; the two extreme-value exclusions keep the magnitudes representable.
pub fn rounding_div(numerator: i128, denominator: i128) -> (r: i128)
    requires
        denominator != 0,
        numerator != i128::MIN,
        denominator != i128::MIN,
    ensures
        r == rounded_div(numerator as int, denominator as int),
{
    let neg: bool = (numerator < 0) != (denominator < 0);
    let a: i128 = if numerator < 0 {
        -numerator
    } else {
        numerator
    };
    let b: i128 = if denominator < 0 {
        -denominator
    } else {
        denominator
    };
    let q: i128 = a / b;
    let r: i128 = a % b;
    proof {
        lemma_fundamental_div_mod(a as int, b as int);
        assert(a == b * q + r);
        if 2 * r >= b {
            assert(2 * a + b == (q + 1) * (2 * (b as int)) + (2 * (r as int) - b))
                by (nonlinear_arith)
                requires
                    a == b * q + r,
            ;
            lemma_fundamental_div_mod_converse(
                2 * a + b,
                2 * (b as int),
                q as int + 1,
                2 * (r as int) - b,
            );
            assert(b * q >= q) by (nonlinear_arith)
                requires
                    b >= 1,
                    q >= 0,
            ;
            assert(q < a);
        } else {
            assert(2 * a + b == q * (2 * (b as int)) + (2 * (r as int) + b)) by (nonlinear_arith)
                requires
                    a == b * q + r,
            ;
            lemma_fundamental_div_mod_converse(
                2 * a + b,
                2 * (b as int),
                q as int,
                2 * (r as int) + b,
            );
        }
    }
    let m: i128 = if r >= b - r {
        q + 1
    } else {
        q
    };
    if neg {
        -m
    } else {
        m
    }
}

/// An exact multiple divides without any rounding.
pub proof fn lemma_rounded_div_exact(k: int, d: int)
    requires
        d > 0,
        k >= 0,
    ensures
        rounded_div(k * d, d) == k,
{
    assert(2 * (k * d) + d == k * (2 * d) + d) by (nonlinear_arith);
    lemma_fundamental_div_mod_converse(2 * (k * d) + d, 2 * d, k, d);
}

/// Rounded division of a non-negative numerator is non-negative, and is
/// monotonic in the numerator.
pub proof fn lemma_rounded_div_monotonic(n1: int, n2: int, d: int)
    requires
        d > 0,
        0 <= n1 <= n2,
    ensures
        0 <= rounded_div(n1, d) <= rounded_div(n2, d),
{
    lemma_fundamental_div_mod_converse(d, 2 * d, 0, d);
    lemma_div_is_ordered(d, 2 * n1 + d, 2 * d);
    lemma_div_is_ordered(2 * n1 + d, 2 * n2 + d, 2 * d);
}

/// Increasing the numerator by at most `k` whole denominators increases the
/// rounded quotient by at most `k`.  The consistent tie direction makes the
/// bound exact: rounding never lets two nearby quotients drift `k + 1` apart.
pub proof fn lemma_rounded_div_diff(x: int, y: int, d: int, k: int)
    requires
        d > 0,
        0 <= x <= y,
        y - x <= k * d,
    ensures
        rounded_div(y, d) - rounded_div(x, d) <= k,
{
    assert(2 * y + d <= 2 * x + d + k * (2 * d)) by (nonlinear_arith)
        requires
            y - x <= k * d,
    ;
    lemma_div_is_ordered(2 * y + d, 2 * x + d + k * (2 * d), 2 * d);
    lemma_hoist_over_denominator(2 * x + d, k, (2 * d) as nat);
}

/// A numerator of at most `k` whole denominators rounds to at most `k`.
pub proof fn lemma_rounded_div_upper(n: int, d: int, k: int)
    requires
        d > 0,
        0 <= n,
        n <= k * d,
    ensures
        rounded_div(n, d) <= k,
{
    lemma_rounded_div_diff(0, n, d, k);
    lemma_fundamental_div_mod_converse(d, 2 * d, 0, d);
}

/// Rounded division is an odd function of the numerator: negating the
/// numerator negates the result, so both signs round ties away from zero.
pub proof fn lemma_rounded_div_antisymmetric(n: int, d: int)
    requires
        d != 0,
    ensures
        rounded_div(-n, d) == -rounded_div(n, d),
{
    if n == 0 {
        let b = abs_int(d);
        lemma_fundamental_div_mod_converse(b, 2 * b, 0, b);
    }
}

/// Ties round away from zero: when the remainder is exactly half the
/// denominator, the quotient moves up, never down.
pub proof fn lemma_rounded_div_tie_away(n: int, d: int)
    requires
        d > 0,
        n >= 0,
        2 * (n % d) == d,
    ensures
        rounded_div(n, d) == n / d + 1,
{
    lemma_fundamental_div_mod(n, d);
    assert(2 * n + d == (n / d + 1) * (2 * d) + 0) by (nonlinear_arith)
        requires
            n == d * (n / d) + n % d,
            2 * (n % d) == d,
    ;
    lemma_fundamental_div_mod_converse(2 * n + d, 2 * d, n / d + 1, 0);
}

} // verus!
