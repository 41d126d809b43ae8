use lookup_curve::math::ONE;
use lookup_curve::Knot;
use lookup_curve::KnotInterpolation;
use lookup_curve::LookupCache;
use lookup_curve::LookupCurve;
use lookup_curve::Tangent;
use lookup_curve::Vec2;

fn fx(v: f64) -> i64 {
    (v * ONE as f64).round() as i64
}

fn mixed_curve() -> LookupCurve {
    LookupCurve::new(vec![
        Knot {
            position: Vec2 { x: 0, y: 0 },
            interpolation: KnotInterpolation::Cubic,
            right_tangent: Tangent {
                slope: fx(7.6),
                weight: Some(fx(0.15)),
            },
            ..Default::default()
        },
        Knot {
            position: Vec2 { x: ONE, y: ONE },
            interpolation: KnotInterpolation::Linear,
            left_tangent: Tangent {
                slope: fx(2.0),
                weight: None,
            },
            ..Default::default()
        },
        Knot {
            position: Vec2 {
                x: 2 * ONE,
                y: -ONE,
            },
            interpolation: KnotInterpolation::Constant,
            ..Default::default()
        },
        Knot {
            position: Vec2 {
                x: 3 * ONE,
                y: ONE / 2,
            },
            interpolation: KnotInterpolation::Cubic,
            right_tangent: Tangent {
                slope: fx(-1.0),
                weight: Some(fx(0.8)),
            },
            ..Default::default()
        },
        Knot {
            position: Vec2 { x: 4 * ONE, y: 0 },
            interpolation: KnotInterpolation::Linear,
            ..Default::default()
        },
    ])
}

#[test]
fn cached_path_equals_cold_path_on_a_scrub() {
    let curve = mixed_curve();
    let mut cache = LookupCache::new();
    // A monotonically increasing sweep across the whole domain and beyond.
    for i in -32..=160 {
        let x = i * ONE / 32;
        assert_eq!(curve.lookup_cached(x, &mut cache), curve.lookup(x), "x={}", x);
    }
}

#[test]
fn cached_path_equals_cold_path_on_jumps() {
    let curve = mixed_curve();
    let mut cache = LookupCache::new();
    // Arbitrary jumps back and forth build up every kind of cache history.
    let xs = [
        0,
        4 * ONE,
        ONE / 2,
        3 * ONE + ONE / 3,
        -ONE,
        2 * ONE + 5,
        ONE - 1,
        5 * ONE,
        ONE / 7,
        3 * ONE - 1,
        0,
        2 * ONE,
    ];
    for &x in xs.iter() {
        assert_eq!(curve.lookup_cached(x, &mut cache), curve.lookup(x), "x={}", x);
    }
}

#[test]
fn fresh_and_warm_caches_agree() {
    let curve = mixed_curve();
    let mut warm = LookupCache::new();
    for i in 0..=128 {
        let x = i * ONE / 32;
        let with_warm = curve.lookup_cached(x, &mut warm);
        let mut fresh = LookupCache::new();
        let with_fresh = curve.lookup_cached(x, &mut fresh);
        assert_eq!(with_warm, with_fresh);
        assert_eq!(with_warm, curve.lookup(x));
    }
}

#[test]
fn default_cache_is_cold() {
    let curve = mixed_curve();
    let mut a = LookupCache::new();
    let mut b = LookupCache::default();
    let x = 3 * ONE + ONE / 2;
    assert_eq!(
        curve.lookup_cached(x, &mut a),
        curve.lookup_cached(x, &mut b)
    );
}

#[test]
fn stale_cache_after_structural_edit_is_safe() {
    let mut curve = mixed_curve();
    let mut cache = LookupCache::new();
    // Warm the cache deep into the curve...
    let _ = curve.lookup_cached(3 * ONE + ONE / 2, &mut cache);
    // ...then shrink the curve so the remembered index is out of bounds.
    curve.delete_knot(4);
    curve.delete_knot(3);
    curve.delete_knot(2);
    for i in -8..=40 {
        let x = i * ONE / 16;
        assert_eq!(curve.lookup_cached(x, &mut cache), curve.lookup(x), "x={}", x);
    }
}

#[test]
fn one_cache_reused_across_curves_is_safe() {
    let curve_a = mixed_curve();
    let curve_b = LookupCurve::new(vec![
        Knot {
            position: Vec2 { x: -ONE, y: ONE },
            interpolation: KnotInterpolation::Linear,
            ..Default::default()
        },
        Knot {
            position: Vec2 { x: ONE, y: -ONE },
            interpolation: KnotInterpolation::Linear,
            ..Default::default()
        },
    ]);
    let mut cache = LookupCache::new();
    for i in -16..=16 {
        let x = i * ONE / 4;
        assert_eq!(curve_a.lookup_cached(x, &mut cache), curve_a.lookup(x));
        assert_eq!(curve_b.lookup_cached(x, &mut cache), curve_b.lookup(x));
    }
}

#[test]
fn cached_query_on_empty_curve_answers_zero() {
    let curve = LookupCurve::new(vec![]);
    let mut cache = LookupCache::new();
    assert_eq!(curve.lookup_cached(ONE, &mut cache), 0);
}
