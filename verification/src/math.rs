//! Fixed-point scalar conventions and the arithmetic primitives the
//! evaluator is built on.
//!
//! Every scalar of the library is an `i64` counting units of `1 / ONE`.
//! Spec-level arithmetic is Euclidean, so division by a positive divisor is
//! mathematical floor division; `floor_div` is the executable counterpart.

use vstd::arithmetic::div_mod::lemma_fundamental_div_mod;
use vstd::arithmetic::div_mod::lemma_fundamental_div_mod_converse;
use vstd::arithmetic::div_mod::lemma_mod_bound;
use vstd::prelude::*;

verus! {

/// Number of fixed-point units in the value one: scalars count 1/65536ths.
pub const ONE: i64 = 65536;

/// `ONE * ONE * ONE`, the normalizing divisor of a cubic Bezier blend.
pub const ONE_CUBED: i128 = 281474976710656;

/// The automatic tangent weight, one third rounded down to fixed point: the
/// horizontal handle reach that makes a cubic segment coincide with the
/// unweighted Hermite form.
pub const AUTO_WEIGHT: i64 = 21845;

/// Largest magnitude a knot coordinate may hold (2^31 raw units, ±32768.0).
pub const COORD_LIMIT: i64 = 2147483648;

/// Largest magnitude a tangent slope may hold after construction clamps it.
pub const SLOPE_LIMIT: i64 = 2147483648;

/// Largest magnitude any Bezier control-point coordinate can reach (2^48):
/// a clamped coordinate plus a handle offset of at most `COORD_LIMIT * 2`
/// units scaled by a slope of at most `SLOPE_LIMIT`.
pub const CTRL_LIMIT: i128 = 281474976710656;

/// Magnitude bound within which `floor_div` accepts its numerator (2^110).
pub const NUM_LIMIT: i128 = 1298074214633706907132624082305024;

/// The product of two values is bounded by the product of their bounds.
pub proof fn lemma_mul_bounds(a: int, b: int, aa: int, bb: int)
    requires
        0 <= aa,
        0 <= bb,
        -aa <= a <= aa,
        -bb <= b <= bb,
    ensures
        -(aa * bb) <= a * b <= aa * bb,
{
    assert(-(aa * bb) <= a * b <= aa * bb) by (nonlinear_arith)
        requires
            0 <= aa,
            0 <= bb,
            -aa <= a <= aa,
            -bb <= b <= bb,
    ;
}

/// Floor division by a positive divisor never enlarges a magnitude bound.
pub proof fn lemma_div_bound(v: int, d: int, b: int)
    requires
        1 <= d,
        0 <= b,
        -b <= v <= b,
    ensures
        -b <= v / d <= b,
{
    lemma_fundamental_div_mod(v, d);
    lemma_mod_bound(v, d);
    assert(-b <= v / d <= b) by (nonlinear_arith)
        requires
            1 <= d,
            0 <= b,
            -b <= v <= b,
            v == d * (v / d) + (v % d),
            0 <= v % d < d,
    ;
}

/// Floor division by a positive divisor divides a magnitude bound stated as
/// a multiple of the divisor.
pub proof fn lemma_div_bound_scaled(v: int, d: int, b: int)
    requires
        1 <= d,
        0 <= b,
        -(b * d) <= v <= b * d,
    ensures
        -b <= v / d <= b,
{
    lemma_fundamental_div_mod(v, d);
    lemma_mod_bound(v, d);
    assert(-b <= v / d <= b) by (nonlinear_arith)
        requires
            1 <= d,
            0 <= b,
            -(b * d) <= v <= b * d,
            v == d * (v / d) + (v % d),
            0 <= v % d < d,
    ;
}

/// The product of two non-negative values is non-negative.
pub proof fn lemma_mul_nonneg(a: int, b: int)
    requires
        0 <= a,
        0 <= b,
    ensures
        0 <= a * b,
{
    assert(0 <= a * b) by (nonlinear_arith)
        requires
            0 <= a,
            0 <= b,
    ;
}

/// Floor (Euclidean) division of a signed numerator by a positive divisor.
pub fn floor_div(v: i128, d: i128) -> (r: i128)
    requires
        1 <= d <= CTRL_LIMIT,
        -NUM_LIMIT <= v <= NUM_LIMIT,
    ensures
        r == v as int / d as int,
{
    if v >= 0 {
        let q: u128 = (v as u128) / (d as u128);
        proof {
            lemma_div_bound(v as int, d as int, NUM_LIMIT as int);
        }
        q as i128
    } else {
        let m: u128 = (-v) as u128;
        let q: u128 = (m - 1) / (d as u128) + 1;
        proof {
            let mi = m as int;
            let di = d as int;
            let qq = (mi - 1) / di;
            let rr = (mi - 1) % di;
            lemma_fundamental_div_mod(mi - 1, di);
            lemma_mod_bound(mi - 1, di);
            lemma_div_bound(mi - 1, di, NUM_LIMIT as int);
            assert(v as int == (-(qq + 1)) * di + (di - rr - 1)) by (nonlinear_arith)
                requires
                    v as int == -mi,
                    mi - 1 == di * qq + rr,
            ;
            lemma_fundamental_div_mod_converse(v as int, di, -(qq + 1), di - rr - 1);
        }
        -(q as i128)
    }
}

} // verus!
