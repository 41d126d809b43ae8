//! The plain value types a curve is made of: positions, tangent handles and
//! control points.

use crate::math::COORD_LIMIT;
use crate::math::SLOPE_LIMIT;
use vstd::prelude::*;

verus! {

/// An ordered pair of fixed-point scalars.
#[derive(Clone, Copy, Debug, PartialEq)]
pub struct Vec2 {
    pub x: i64,
    pub y: i64,
}

/// A directional handle on one side of a knot: a slope (dy/dx, fixed point)
/// and an optional horizontal weight.
///
/// An absent weight means the handle's horizontal reach is derived
/// automatically (one third of the segment width, the unweighted Hermite
/// form). A present weight scales the reach by `weight / ONE`; it is read
/// clamped into `[0, ONE]`, and a non-positive weight is read as automatic.
#[derive(Clone, Copy, Debug, PartialEq)]
pub struct Tangent {
    pub slope: i64,
    pub weight: Option<i64>,
}

impl Default for Tangent {
    /// The default handle is flat and unweighted.
    fn default() -> (t: Tangent)
        ensures
            t.slope == 0,
            t.weight is None,
    {
        Tangent { slope: 0, weight: None }
    }
}

/// The interpolation rule of the segment leaving a knot.
#[derive(Clone, Copy, Debug, PartialEq)]
pub enum KnotInterpolation {
    /// Hold this knot's y until the next knot.
    Constant,
    /// Blend linearly to the next knot.
    Linear,
    /// A weighted cubic Bezier towards the next knot.
    Cubic,
}

/// A control point: a position, the rule for its outgoing segment, and the
/// two tangent handles. `left_tangent` shapes the segment ending here,
/// `right_tangent` the segment starting here.
#[derive(Clone, Copy, Debug, PartialEq)]
pub struct Knot {
    pub position: Vec2,
    pub interpolation: KnotInterpolation,
    pub left_tangent: Tangent,
    pub right_tangent: Tangent,
}

impl Default for Knot {
    /// The default knot sits at the origin, blends linearly, and has flat
    /// unweighted handles.
    fn default() -> (k: Knot)
        ensures
            k.position.x == 0,
            k.position.y == 0,
            k.interpolation is Linear,
            k.left_tangent.slope == 0,
            k.left_tangent.weight is None,
            k.right_tangent.slope == 0,
            k.right_tangent.weight is None,
    {
        Knot {
            position: Vec2 { x: 0, y: 0 },
            interpolation: KnotInterpolation::Linear,
            left_tangent: Tangent { slope: 0, weight: None },
            right_tangent: Tangent { slope: 0, weight: None },
        }
    }
}

/// A knot whose coordinates and slopes are inside the representable range
/// the evaluator's arithmetic is proved overflow-free for.
pub open spec fn knot_bounded(k: Knot) -> bool {
    &&& -COORD_LIMIT <= k.position.x <= COORD_LIMIT
    &&& -COORD_LIMIT <= k.position.y <= COORD_LIMIT
    &&& -SLOPE_LIMIT <= k.left_tangent.slope <= SLOPE_LIMIT
    &&& -SLOPE_LIMIT <= k.right_tangent.slope <= SLOPE_LIMIT
}

/// A value clamped into `[-limit, limit]`.
pub open spec fn spec_clamp(v: int, limit: int) -> int {
    if v < -limit {
        -limit
    } else if v > limit {
        limit
    } else {
        v
    }
}

fn clamp_i64(v: i64, limit: i64) -> (r: i64)
    requires
        0 <= limit,
    ensures
        r == spec_clamp(v as int, limit as int),
{
    if v < -limit {
        -limit
    } else if v > limit {
        limit
    } else {
        v
    }
}

/// A knot with its position and slopes clamped into the representable range.
/// Tangent weights are left as given: they are clamped when read.
pub open spec fn spec_clamp_knot(k: Knot) -> Knot {
    Knot {
        position: Vec2 {
            x: spec_clamp(k.position.x as int, COORD_LIMIT as int) as i64,
            y: spec_clamp(k.position.y as int, COORD_LIMIT as int) as i64,
        },
        interpolation: k.interpolation,
        left_tangent: Tangent {
            slope: spec_clamp(k.left_tangent.slope as int, SLOPE_LIMIT as int) as i64,
            weight: k.left_tangent.weight,
        },
        right_tangent: Tangent {
            slope: spec_clamp(k.right_tangent.slope as int, SLOPE_LIMIT as int) as i64,
            weight: k.right_tangent.weight,
        },
    }
}

/// Bring a knot into the representable range, leaving everything else as is.
pub fn clamp_knot(k: &Knot) -> (r: Knot)
    ensures
        r == spec_clamp_knot(*k),
        knot_bounded(r),
{
    Knot {
        position: Vec2 {
            x: clamp_i64(k.position.x, COORD_LIMIT),
            y: clamp_i64(k.position.y, COORD_LIMIT),
        },
        interpolation: k.interpolation,
        left_tangent: Tangent {
            slope: clamp_i64(k.left_tangent.slope, SLOPE_LIMIT),
            weight: k.left_tangent.weight,
        },
        right_tangent: Tangent {
            slope: clamp_i64(k.right_tangent.slope, SLOPE_LIMIT),
            weight: k.right_tangent.weight,
        },
    }
}

} // verus!
