//! Per-segment evaluation: constant hold, linear blend, and the weighted
//! cubic Bezier with its bounded x-to-parameter root solve.
//!
//! A cubic segment from knot `a` to knot `b` is the Bezier whose control
//! points are derived from the knots' positions and tangent handles. Because
//! a tangent weight scales its handle's horizontal reach, the Bezier's
//! x-component is not an affine function of the parameter `u`, so the
//! evaluator solves `bez_x(u) == x` with a bounded bisection (16 halvings of
//! `[0, ONE]`, down to a single fixed-point unit) and then evaluates the
//! y-component at the solved parameter. The solve is deterministic: the
//! cached and uncached query paths run the identical computation, which is
//! what makes cache transparency an exact equality.

use crate::knot::Knot;
use crate::knot::KnotInterpolation;
use crate::knot::Tangent;
use crate::knot::knot_bounded;
use crate::math::AUTO_WEIGHT;
use crate::math::COORD_LIMIT;
use crate::math::CTRL_LIMIT;
use crate::math::NUM_LIMIT;
use crate::math::ONE;
use crate::math::ONE_CUBED;
use crate::math::SLOPE_LIMIT;
use crate::math::floor_div;
use crate::math::lemma_div_bound_scaled;
use crate::math::lemma_mul_bounds;
use crate::math::lemma_mul_nonneg;
use vstd::arithmetic::div_mod::lemma_div_pos_is_pos;
use vstd::prelude::*;

verus! {

/// The horizontal weight a tangent is read with: absent or non-positive
/// means the automatic one-third handle; anything above one is clamped.
pub open spec fn spec_eff_weight(t: Tangent) -> int {
    match t.weight {
        Option::None => AUTO_WEIGHT as int,
        Option::Some(w) => if w <= 0 {
            AUTO_WEIGHT as int
        } else if w >= ONE {
            ONE as int
        } else {
            w as int
        },
    }
}

fn eff_weight(t: &Tangent) -> (r: i64)
    ensures
        r == spec_eff_weight(*t),
        1 <= r <= ONE,
{
    match t.weight {
        Option::None => AUTO_WEIGHT,
        Option::Some(w) => if w <= 0 {
            AUTO_WEIGHT
        } else if w >= ONE {
            ONE
        } else {
            w
        },
    }
}

/// Multiply two bounded `i128` values, carrying the bound through.
fn mul_i128(a: i128, b: i128, Ghost(ba): Ghost<int>, Ghost(bb): Ghost<int>) -> (r: i128)
    requires
        0 <= ba,
        0 <= bb,
        -ba <= a <= ba,
        -bb <= b <= bb,
        ba * bb <= NUM_LIMIT,
    ensures
        r == a * b,
        -(ba * bb) <= r <= ba * bb,
{
    proof {
        lemma_mul_bounds(a as int, b as int, ba, bb);
    }
    a * b
}

/// The unnormalized cubic Bezier blend of four control coordinates at
/// parameter `u` of `[0, ONE]`.
pub open spec fn spec_bez_num(c0: int, c1: int, c2: int, c3: int, u: int) -> int {
    let s = ONE - u;
    c0 * s * s * s + 3 * c1 * u * s * s + 3 * c2 * u * u * s + c3 * u * u * u
}

/// A cubic Bezier coordinate at parameter `u`, normalized back to fixed point.
pub open spec fn spec_bez(c0: int, c1: int, c2: int, c3: int, u: int) -> int {
    spec_bez_num(c0, c1, c2, c3, u) / (ONE_CUBED as int)
}

fn bez_num(c0: i64, c1: i64, c2: i64, c3: i64, u: i64) -> (r: i128)
    requires
        0 <= u <= ONE,
        -CTRL_LIMIT <= c0 <= CTRL_LIMIT,
        -CTRL_LIMIT <= c1 <= CTRL_LIMIT,
        -CTRL_LIMIT <= c2 <= CTRL_LIMIT,
        -CTRL_LIMIT <= c3 <= CTRL_LIMIT,
    ensures
        r == spec_bez_num(c0 as int, c1 as int, c2 as int, c3 as int, u as int),
        -(8 * CTRL_LIMIT * ONE_CUBED) <= r <= 8 * CTRL_LIMIT * ONE_CUBED,
{
    let s: i64 = ONE - u;
    let su: i128 = s as i128;
    let uu: i128 = u as i128;
    let ghost cl = CTRL_LIMIT as int;
    let ghost fx = ONE as int;
    let t0: i128 = mul_i128(
        mul_i128(mul_i128(c0 as i128, su, Ghost(cl), Ghost(fx)), su, Ghost(cl * fx), Ghost(fx)),
        su,
        Ghost(cl * fx * fx),
        Ghost(fx),
    );
    let t1: i128 = mul_i128(
        mul_i128(
            mul_i128(mul_i128(3, c1 as i128, Ghost(3), Ghost(cl)), uu, Ghost(3 * cl), Ghost(fx)),
            su,
            Ghost(3 * cl * fx),
            Ghost(fx),
        ),
        su,
        Ghost(3 * cl * fx * fx),
        Ghost(fx),
    );
    let t2: i128 = mul_i128(
        mul_i128(
            mul_i128(mul_i128(3, c2 as i128, Ghost(3), Ghost(cl)), uu, Ghost(3 * cl), Ghost(fx)),
            uu,
            Ghost(3 * cl * fx),
            Ghost(fx),
        ),
        su,
        Ghost(3 * cl * fx * fx),
        Ghost(fx),
    );
    let t3: i128 = mul_i128(
        mul_i128(mul_i128(c3 as i128, uu, Ghost(cl), Ghost(fx)), uu, Ghost(cl * fx), Ghost(fx)),
        uu,
        Ghost(cl * fx * fx),
        Ghost(fx),
    );
    t0 + t1 + t2 + t3
}

/// Evaluate one Bezier coordinate at parameter `u`.
fn bez_eval(c0: i64, c1: i64, c2: i64, c3: i64, u: i64) -> (r: i64)
    requires
        0 <= u <= ONE,
        -CTRL_LIMIT <= c0 <= CTRL_LIMIT,
        -CTRL_LIMIT <= c1 <= CTRL_LIMIT,
        -CTRL_LIMIT <= c2 <= CTRL_LIMIT,
        -CTRL_LIMIT <= c3 <= CTRL_LIMIT,
    ensures
        r == spec_bez(c0 as int, c1 as int, c2 as int, c3 as int, u as int),
        -(8 * CTRL_LIMIT) <= r <= 8 * CTRL_LIMIT,
{
    let n: i128 = bez_num(c0, c1, c2, c3, u);
    let q: i128 = floor_div(n, ONE_CUBED);
    proof {
        lemma_div_bound_scaled(n as int, ONE_CUBED as int, 8 * CTRL_LIMIT as int);
    }
    q as i64
}

/// The bisection the x-to-parameter solve performs: `fuel` halvings of
/// `[lo, hi]`, keeping the half whose left end still evaluates at or below
/// the query `x`.
pub open spec fn spec_solve(
    c0: int,
    c1: int,
    c2: int,
    c3: int,
    x: int,
    lo: int,
    hi: int,
    fuel: nat,
) -> int
    decreases fuel,
{
    if fuel == 0 {
        lo
    } else {
        let mid = (lo + hi) / 2;
        if spec_bez(c0, c1, c2, c3, mid) <= x {
            spec_solve(c0, c1, c2, c3, x, mid, hi, (fuel - 1) as nat)
        } else {
            spec_solve(c0, c1, c2, c3, x, lo, mid, (fuel - 1) as nat)
        }
    }
}

/// Number of bisection steps: halving `[0, ONE]` sixteen times narrows the
/// bracket to a single fixed-point unit, so the iteration count is fixed and
/// the solve always terminates.
pub const SOLVE_STEPS: u64 = 16;

/// Solve `bez_x(u) == x` for `u` in `[0, ONE]` by bounded bisection.
fn solve_u(c0: i64, c1: i64, c2: i64, c3: i64, x: i64) -> (u: i64)
    requires
        -CTRL_LIMIT <= c0 <= CTRL_LIMIT,
        -CTRL_LIMIT <= c1 <= CTRL_LIMIT,
        -CTRL_LIMIT <= c2 <= CTRL_LIMIT,
        -CTRL_LIMIT <= c3 <= CTRL_LIMIT,
    ensures
        u == spec_solve(
            c0 as int,
            c1 as int,
            c2 as int,
            c3 as int,
            x as int,
            0,
            ONE as int,
            SOLVE_STEPS as nat,
        ),
        0 <= u < ONE,
{
    let mut lo: i64 = 0;
    let mut hi: i64 = ONE;
    let mut k: u64 = 0;
    proof {
        vstd::arithmetic::power2::lemma2_to64();
    }
    while k < SOLVE_STEPS
        invariant
            0 <= lo < hi <= ONE,
            k <= SOLVE_STEPS,
            hi - lo == vstd::arithmetic::power2::pow2((SOLVE_STEPS - k) as nat),
            -CTRL_LIMIT <= c0 <= CTRL_LIMIT,
            -CTRL_LIMIT <= c1 <= CTRL_LIMIT,
            -CTRL_LIMIT <= c2 <= CTRL_LIMIT,
            -CTRL_LIMIT <= c3 <= CTRL_LIMIT,
            spec_solve(
                c0 as int,
                c1 as int,
                c2 as int,
                c3 as int,
                x as int,
                0,
                ONE as int,
                SOLVE_STEPS as nat,
            ) == spec_solve(
                c0 as int,
                c1 as int,
                c2 as int,
                c3 as int,
                x as int,
                lo as int,
                hi as int,
                (SOLVE_STEPS - k) as nat,
            ),
        decreases SOLVE_STEPS - k,
    {
        let mid: i64 = ((lo + hi) as u64 / 2) as i64;
        proof {
            vstd::arithmetic::power2::lemma2_to64();
            let f = (SOLVE_STEPS - k) as nat;
            vstd::arithmetic::power2::lemma_pow2_unfold(f);
            vstd::arithmetic::power2::lemma_pow2_pos((f - 1) as nat);
            assert(mid as int == (lo + hi) / 2);
            assert(mid - lo == vstd::arithmetic::power2::pow2((f - 1) as nat));
            assert(hi - mid == vstd::arithmetic::power2::pow2((f - 1) as nat));
            assert(lo < mid < hi);
        }
        let b: i64 = bez_eval(c0, c1, c2, c3, mid);
        if b <= x {
            lo = mid;
        } else {
            hi = mid;
        }
        k = k + 1;
    }
    lo
}

/// Width of the segment from `a` to `b`.
pub open spec fn spec_dx(a: Knot, b: Knot) -> int {
    b.position.x - a.position.x
}

/// Horizontal reach of the outgoing handle at `a`.
pub open spec fn spec_o1(a: Knot, b: Knot) -> int {
    spec_dx(a, b) * spec_eff_weight(a.right_tangent) / (ONE as int)
}

/// Horizontal reach of the incoming handle at `b`.
pub open spec fn spec_o2(a: Knot, b: Knot) -> int {
    spec_dx(a, b) * spec_eff_weight(b.left_tangent) / (ONE as int)
}

/// X-coordinate of the first inner control point.
pub open spec fn spec_p1x(a: Knot, b: Knot) -> int {
    a.position.x + spec_o1(a, b)
}

/// Y-coordinate of the first inner control point: the handle climbs its
/// slope over its horizontal reach.
pub open spec fn spec_p1y(a: Knot, b: Knot) -> int {
    a.position.y + spec_o1(a, b) * a.right_tangent.slope / (ONE as int)
}

/// X-coordinate of the second inner control point.
pub open spec fn spec_p2x(a: Knot, b: Knot) -> int {
    b.position.x - spec_o2(a, b)
}

/// Y-coordinate of the second inner control point.
pub open spec fn spec_p2y(a: Knot, b: Knot) -> int {
    b.position.y - spec_o2(a, b) * b.left_tangent.slope / (ONE as int)
}

/// The fraction of the way `x` lies through `[ax, bx]`, in fixed point.
pub open spec fn spec_lerp_t(ax: int, bx: int, x: int) -> int {
    (x - ax) * ONE / (bx - ax)
}

/// Linear blend of `ay` and `by` at fraction `t`.
pub open spec fn spec_lerp(ay: int, by: int, t: int) -> int {
    (ay * (ONE - t) + by * t) / (ONE as int)
}

/// The Bezier parameter a segment query resolves: the solved root for an
/// interior query of a cubic segment, and zero everywhere else.
pub open spec fn spec_segment_u(a: Knot, b: Knot, x: int) -> int {
    if a.interpolation is Cubic && a.position.x < x && a.position.x < b.position.x {
        spec_solve(
            a.position.x as int,
            spec_p1x(a, b),
            spec_p2x(a, b),
            b.position.x as int,
            x,
            0,
            ONE as int,
            SOLVE_STEPS as nat,
        )
    } else {
        0
    }
}

/// The value of the segment from `a` to `b` at `x`.
///
/// A query at the segment's left end returns `a`'s y exactly, whatever the
/// interpolation mode: control points are interpolated exactly.
pub open spec fn spec_segment_value(a: Knot, b: Knot, x: int) -> int {
    match a.interpolation {
        KnotInterpolation::Constant => a.position.y as int,
        KnotInterpolation::Linear => if x <= a.position.x || b.position.x <= a.position.x {
            a.position.y as int
        } else {
            spec_lerp(
                a.position.y as int,
                b.position.y as int,
                spec_lerp_t(a.position.x as int, b.position.x as int, x),
            )
        },
        KnotInterpolation::Cubic => if x <= a.position.x || b.position.x <= a.position.x {
            a.position.y as int
        } else {
            spec_bez(
                a.position.y as int,
                spec_p1y(a, b),
                spec_p2y(a, b),
                b.position.y as int,
                spec_segment_u(a, b, x),
            )
        },
    }
}

/// Evaluate the segment from `a` to `b` at `x`, returning the value and the
/// resolved Bezier parameter (zero outside the cubic interior).
pub fn eval_segment(a: &Knot, b: &Knot, x: i64) -> (r: (i64, i64))
    requires
        knot_bounded(*a),
        knot_bounded(*b),
        a.position.x <= x < b.position.x,
    ensures
        r.0 == spec_segment_value(*a, *b, x as int),
        r.1 == spec_segment_u(*a, *b, x as int),
        0 <= r.1 < ONE,
{
    match a.interpolation {
        KnotInterpolation::Constant => (a.position.y, 0),
        KnotInterpolation::Linear => {
            if x <= a.position.x {
                (a.position.y, 0)
            } else {
                let dx: i64 = b.position.x - a.position.x;
                let num: i128 = mul_i128(
                    (x - a.position.x) as i128,
                    ONE as i128,
                    Ghost(2 * COORD_LIMIT as int),
                    Ghost(ONE as int),
                );
                let tq: i128 = floor_div(num, dx as i128);
                proof {
                    lemma_div_pos_is_pos(num as int, dx as int);
                    lemma_div_bound_scaled(num as int, dx as int, ONE as int);
                }
                let t: i64 = tq as i64;
                proof {
                    lemma_mul_bounds(
                        a.position.y as int,
                        ONE - t,
                        COORD_LIMIT as int,
                        ONE as int,
                    );
                    lemma_mul_bounds(b.position.y as int, t as int, COORD_LIMIT as int, ONE as int);
                }
                let blend: i128 = a.position.y as i128 * (ONE - t) as i128 + b.position.y as i128
                    * t as i128;
                let yq: i128 = floor_div(blend, ONE as i128);
                proof {
                    lemma_div_bound_scaled(blend as int, ONE as int, 2 * COORD_LIMIT as int);
                }
                let y: i64 = yq as i64;
                (y, 0)
            }
        },
        KnotInterpolation::Cubic => {
            if x <= a.position.x {
                (a.position.y, 0)
            } else {
                let dx: i64 = b.position.x - a.position.x;
                let ghost dxi = dx as int;
                let ghost sl = SLOPE_LIMIT as int;
                let w1: i64 = eff_weight(&a.right_tangent);
                let n1: i128 = mul_i128(dx as i128, w1 as i128, Ghost(dxi), Ghost(ONE as int));
                let o1q: i128 = floor_div(n1, ONE as i128);
                proof {
                    lemma_mul_nonneg(dxi, w1 as int);
                    lemma_div_pos_is_pos(n1 as int, ONE as int);
                    lemma_div_bound_scaled(n1 as int, ONE as int, dxi);
                }
                let o1: i64 = o1q as i64;
                let p1x: i64 = a.position.x + o1;
                let m1: i128 = mul_i128(
                    o1 as i128,
                    a.right_tangent.slope as i128,
                    Ghost(dxi),
                    Ghost(sl),
                );
                let oy1: i128 = floor_div(m1, ONE as i128);
                proof {
                    lemma_div_bound_scaled(
                        m1 as int,
                        ONE as int,
                        2 * COORD_LIMIT as int * sl / (ONE as int),
                    );
                }
                let p1y: i64 = (a.position.y as i128 + oy1) as i64;

                let w2: i64 = eff_weight(&b.left_tangent);
                let n2: i128 = mul_i128(dx as i128, w2 as i128, Ghost(dxi), Ghost(ONE as int));
                let o2q: i128 = floor_div(n2, ONE as i128);
                proof {
                    lemma_mul_nonneg(dxi, w2 as int);
                    lemma_div_pos_is_pos(n2 as int, ONE as int);
                    lemma_div_bound_scaled(n2 as int, ONE as int, dxi);
                }
                let o2: i64 = o2q as i64;
                let p2x: i64 = b.position.x - o2;
                let m2: i128 = mul_i128(
                    o2 as i128,
                    b.left_tangent.slope as i128,
                    Ghost(dxi),
                    Ghost(sl),
                );
                let oy2: i128 = floor_div(m2, ONE as i128);
                proof {
                    lemma_div_bound_scaled(
                        m2 as int,
                        ONE as int,
                        2 * COORD_LIMIT as int * sl / (ONE as int),
                    );
                }
                let p2y: i64 = (b.position.y as i128 - oy2) as i64;

                let u: i64 = solve_u(a.position.x, p1x, p2x, b.position.x, x);
                let y: i64 = bez_eval(a.position.y, p1y, p2y, b.position.y, u);
                (y, u)
            }
        },
    }
}

} // verus!
