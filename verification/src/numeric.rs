//! Truncating integer division, shared by the time arithmetic and the
//! playback engine.
//!
//! In specifications `/` is Euclidean division, while Rust's `/` truncates
//! toward zero. `tdiv` states truncating division in a sign-normalized way
//! (only ever dividing magnitudes), and the executable helpers prove that
//! machine division agrees with it.

use vstd::arithmetic::div_mod::{lemma_fundamental_div_mod, lemma_mod_bound};
use vstd::math::abs;
use vstd::prelude::*;

verus! {

/// Truncating (round-toward-zero) integer division, as Rust's `/` computes it.
pub open spec fn tdiv(a: int, b: int) -> int {
    let q = abs(a) as int / abs(b) as int;
    if (a >= 0) == (b >= 0) {
        q
    } else {
        -q
    }
}

/// The truncating quotient never exceeds the dividend in magnitude:
/// `|b * tdiv(a, b)| <= |a|`.
pub proof fn lemma_tdiv_mul_bound(a: int, b: int)
    requires
        b != 0,
    ensures
        -abs(a) <= b * tdiv(a, b) <= abs(a),
{
    let am = abs(a) as int;
    let bm = abs(b) as int;
    let q = am / bm;
    lemma_fundamental_div_mod(am, bm);
    lemma_mod_bound(am, bm);
    assert(0 <= bm * q <= am);
    if a >= 0 && b >= 0 {
        assert(b * tdiv(a, b) == bm * q);
    } else if a >= 0 && b < 0 {
        assert(b * -q == bm * q) by (nonlinear_arith)
            requires
                bm == -b,
        ;
    } else if a < 0 && b >= 0 {
        assert(b * -q == -(bm * q)) by (nonlinear_arith)
            requires
                bm == b,
        ;
    } else {
        assert(b * q == -(bm * q)) by (nonlinear_arith)
            requires
                bm == -b,
        ;
    }
}

/// For a non-negative dividend and positive divisor, the truncating quotient
/// is the flooring one: `b * tdiv(a, b) <= a < b * tdiv(a, b) + b`.
pub proof fn lemma_tdiv_pos(a: int, b: int)
    requires
        a >= 0,
        b > 0,
    ensures
        tdiv(a, b) >= 0,
        b * tdiv(a, b) <= a < b * tdiv(a, b) + b,
        tdiv(a, b) == a / b,
{
    lemma_fundamental_div_mod(a, b);
    lemma_mod_bound(a, b);
}

/// Truncating division by a positive divisor is monotone in the dividend.
pub proof fn lemma_tdiv_monotone(a: int, b: int, d: int)
    requires
        a <= b,
        d > 0,
    ensures
        tdiv(a, d) <= tdiv(b, d),
{
    if a >= 0 {
        vstd::arithmetic::div_mod::lemma_div_is_ordered(a, b, d);
    } else if b < 0 {
        vstd::arithmetic::div_mod::lemma_div_is_ordered(-b, -a, d);
    } else {
        lemma_tdiv_pos(b, d);
        lemma_tdiv_pos(-a, d);
    }
}

/// Bounding a product by the product of the bounds.
pub proof fn lemma_abs_mul_le(a: int, bound_a: int, b: int, bound_b: int) by (nonlinear_arith)
    requires
        -bound_a <= a <= bound_a,
        -bound_b <= b <= bound_b,
        0 <= bound_a,
        0 <= bound_b,
    ensures
        -(bound_a * bound_b) <= a * b <= bound_a * bound_b,
{
}

/// Truncating division of `i64` values, matching Rust's `/`.
pub fn div_i64(a: i64, b: i64) -> (q: i64)
    requires
        b != 0,
        a > i64::MIN,
        b > i64::MIN,
    ensures
        q == tdiv(a as int, b as int),
{
    if b > 0 {
        a / b
    } else {
        proof {
            let am = abs(a as int) as int;
            let bm = abs(b as int) as int;
            lemma_fundamental_div_mod(am, bm);
            lemma_mod_bound(am, bm);
        }
        -(a / (-b))
    }
}

/// Truncating division of `i128` values, matching Rust's `/`.
pub fn div_i128(a: i128, b: i128) -> (q: i128)
    requires
        b != 0,
        a > i128::MIN,
        b > i128::MIN,
    ensures
        q == tdiv(a as int, b as int),
{
    if b > 0 {
        a / b
    } else {
        proof {
            let am = abs(a as int) as int;
            let bm = abs(b as int) as int;
            lemma_fundamental_div_mod(am, bm);
            lemma_mod_bound(am, bm);
        }
        -(a / (-b))
    }
}

} // verus!
