//! An editable piecewise lookup curve over a scalar domain.
//!
//! A curve is an x-sorted sequence of control points ("knots"), each with an
//! interpolation rule for its outgoing segment (constant hold, linear blend,
//! or weighted cubic) and two tangent handles. Callers query the curve with
//! `lookup(x)` or, for sequentially correlated queries, `lookup_cached(x, cache)`,
//! which warm-starts segment location from the previous query.
//!
//! All scalars are exact fixed-point numbers: an `i64` counts units of
//! `1 / ONE` (`ONE = 65536`), so the value `1.0` is written `65536`. Exact
//! arithmetic is what lets the cache-transparency law (the cached and uncached
//! query paths return equal results) be proved as an equality rather than a
//! tolerance claim.

pub mod curve;
pub mod knot;
pub mod laws;
pub mod math;
pub mod segment;

pub use curve::LookupCache;
pub use curve::LookupCurve;
pub use knot::Knot;
pub use knot::KnotInterpolation;
pub use knot::Tangent;
pub use knot::Vec2;
