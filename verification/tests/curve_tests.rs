use lookup_curve::math::COORD_LIMIT;
use lookup_curve::math::ONE;
use lookup_curve::Knot;
use lookup_curve::KnotInterpolation;
use lookup_curve::LookupCurve;
use lookup_curve::Tangent;
use lookup_curve::Vec2;

/// A scalar as fixed point.
fn fx(v: f64) -> i64 {
    (v * ONE as f64).round() as i64
}

fn knot(x: i64, y: i64, interpolation: KnotInterpolation) -> Knot {
    Knot {
        position: Vec2 { x, y },
        interpolation,
        ..Default::default()
    }
}

/// The closed-form unweighted cubic Hermite value at parameter t.
fn hermite(y0: f64, y1: f64, m0: f64, m1: f64, dx: f64, t: f64) -> f64 {
    let t2 = t * t;
    let t3 = t2 * t;
    (2.0 * t3 - 3.0 * t2 + 1.0) * y0
        + (t3 - 2.0 * t2 + t) * m0 * dx
        + (-2.0 * t3 + 3.0 * t2) * y1
        + (t3 - t2) * m1 * dx
}

#[test]
fn empty_curve_answers_zero() {
    let curve = LookupCurve::new(vec![]);
    assert_eq!(curve.lookup(0), 0);
    assert_eq!(curve.lookup(-5 * ONE), 0);
    assert_eq!(curve.lookup(7 * ONE), 0);
}

#[test]
fn single_knot_is_constant() {
    let curve = LookupCurve::new(vec![knot(2 * ONE, 3 * ONE, KnotInterpolation::Linear)]);
    assert_eq!(curve.lookup(-ONE), 3 * ONE);
    assert_eq!(curve.lookup(2 * ONE), 3 * ONE);
    assert_eq!(curve.lookup(10 * ONE), 3 * ONE);
}

#[test]
fn knots_are_interpolated_exactly_in_every_mode() {
    let knots = vec![
        knot(0, 0, KnotInterpolation::Constant),
        knot(ONE, ONE, KnotInterpolation::Linear),
        knot(2 * ONE, ONE / 2, KnotInterpolation::Cubic),
        knot(3 * ONE, -ONE, KnotInterpolation::Linear),
    ];
    let curve = LookupCurve::new(knots.clone());
    for k in &knots {
        assert_eq!(curve.lookup(k.position.x), k.position.y);
    }
}

#[test]
fn extrapolation_holds_endpoint_values() {
    let curve = LookupCurve::new(vec![
        knot(0, 5 * ONE, KnotInterpolation::Linear),
        knot(ONE, -2 * ONE, KnotInterpolation::Linear),
    ]);
    assert_eq!(curve.lookup(-1), 5 * ONE);
    assert_eq!(curve.lookup(-100 * ONE), 5 * ONE);
    assert_eq!(curve.lookup(ONE), -2 * ONE);
    assert_eq!(curve.lookup(ONE + 1), -2 * ONE);
    assert_eq!(curve.lookup(100 * ONE), -2 * ONE);
}

#[test]
fn linear_unit_curve_is_identity() {
    let curve = LookupCurve::new(vec![
        knot(0, 0, KnotInterpolation::Linear),
        knot(ONE, ONE, KnotInterpolation::Linear),
    ]);
    for i in 0..=64 {
        let x = i * ONE / 64;
        assert_eq!(curve.lookup(x), x);
    }
}

#[test]
fn constant_segment_steps() {
    let curve = LookupCurve::new(vec![
        knot(0, 4 * ONE, KnotInterpolation::Constant),
        knot(ONE, 9 * ONE, KnotInterpolation::Linear),
    ]);
    assert_eq!(curve.lookup(1), 4 * ONE);
    assert_eq!(curve.lookup(ONE / 2), 4 * ONE);
    assert_eq!(curve.lookup(ONE - 1), 4 * ONE);
    assert_eq!(curve.lookup(ONE), 9 * ONE);
}

#[test]
fn degenerate_cubic_matches_hermite() {
    // Both tangents carry weight zero: the handles fall back to the
    // automatic one-third reach, the unweighted Hermite form.
    let m0 = 1.5;
    let m1 = -0.5;
    let a = Knot {
        position: Vec2 { x: 0, y: 0 },
        interpolation: KnotInterpolation::Cubic,
        right_tangent: Tangent {
            slope: fx(m0),
            weight: Some(0),
        },
        ..Default::default()
    };
    let b = Knot {
        position: Vec2 { x: ONE, y: ONE },
        left_tangent: Tangent {
            slope: fx(m1),
            weight: Some(0),
        },
        ..Default::default()
    };
    let curve = LookupCurve::new(vec![a, b]);
    let eps = fx(0.01);
    for i in 0..=16 {
        let x = i * ONE / 16;
        let t = x as f64 / ONE as f64;
        let expected = fx(hermite(0.0, 1.0, m0, m1, 1.0, t));
        let got = curve.lookup(x);
        assert!(
            (got - expected).abs() <= eps,
            "x={} got={} expected={}",
            x,
            got,
            expected
        );
    }
}

#[test]
fn zero_weight_equals_absent_weight() {
    let mk = |weight: Option<i64>| {
        LookupCurve::new(vec![
            Knot {
                position: Vec2 { x: 0, y: 0 },
                interpolation: KnotInterpolation::Cubic,
                right_tangent: Tangent {
                    slope: fx(2.0),
                    weight,
                },
                ..Default::default()
            },
            knot(ONE, ONE, KnotInterpolation::Linear),
        ])
    };
    let auto = mk(None);
    let zero = mk(Some(0));
    let negative = mk(Some(-3 * ONE));
    for i in 0..=32 {
        let x = i * ONE / 32;
        assert_eq!(auto.lookup(x), zero.lookup(x));
        assert_eq!(auto.lookup(x), negative.lookup(x));
    }
}

#[test]
fn overlarge_weight_is_read_clamped_to_one() {
    let mk = |w: i64| {
        LookupCurve::new(vec![
            Knot {
                position: Vec2 { x: 0, y: 0 },
                interpolation: KnotInterpolation::Cubic,
                right_tangent: Tangent {
                    slope: fx(0.5),
                    weight: Some(w),
                },
                ..Default::default()
            },
            knot(ONE, ONE, KnotInterpolation::Linear),
        ])
    };
    let at_one = mk(ONE);
    let beyond = mk(5 * ONE);
    for i in 0..=32 {
        let x = i * ONE / 32;
        assert_eq!(at_one.lookup(x), beyond.lookup(x));
    }
}

#[test]
fn weighted_cubic_scenario() {
    // Knots (0,0) [Cubic, right tangent slope 7.6, weight 0.15] and
    // (1,1) [left tangent slope 2.0, unweighted].
    let a = Knot {
        position: Vec2 { x: 0, y: 0 },
        interpolation: KnotInterpolation::Cubic,
        right_tangent: Tangent {
            slope: fx(7.6),
            weight: Some(fx(0.15)),
        },
        ..Default::default()
    };
    let b = Knot {
        position: Vec2 { x: ONE, y: ONE },
        left_tangent: Tangent {
            slope: fx(2.0),
            weight: None,
        },
        ..Default::default()
    };
    let curve = LookupCurve::new(vec![a, b]);
    assert_eq!(curve.lookup(0), 0);
    assert_eq!(curve.lookup(ONE), ONE);
    let mid = curve.lookup(ONE / 2);
    assert!(0 < mid && mid < ONE);
    // The tangent weight changes the x-to-parameter mapping: the value at
    // x = 0.5 differs measurably from the unweighted Hermite value at u = 0.5.
    let hermite_mid = fx(hermite(0.0, 1.0, 7.6, 2.0, 1.0, 0.5));
    assert!((mid - hermite_mid).abs() > fx(0.3));
}

#[test]
fn construction_sorts_knots() {
    let curve = LookupCurve::new(vec![
        knot(2 * ONE, 2, KnotInterpolation::Linear),
        knot(0, 0, KnotInterpolation::Linear),
        knot(3 * ONE, 3, KnotInterpolation::Linear),
        knot(ONE, 1, KnotInterpolation::Linear),
    ]);
    let ks = curve.knots();
    assert_eq!(ks.len(), 4);
    for w in ks.windows(2) {
        assert!(w[0].position.x <= w[1].position.x);
    }
    assert_eq!(ks[0].position.y, 0);
    assert_eq!(ks[3].position.y, 3);
}

#[test]
fn construction_clamps_coordinates() {
    let curve = LookupCurve::new(vec![knot(i64::MAX, i64::MIN, KnotInterpolation::Linear)]);
    let ks = curve.knots();
    assert_eq!(ks[0].position.x, COORD_LIMIT);
    assert_eq!(ks[0].position.y, -COORD_LIMIT);
}

#[test]
fn tied_knots_step_to_the_last() {
    let curve = LookupCurve::new(vec![
        knot(0, 0, KnotInterpolation::Linear),
        knot(ONE, 100, KnotInterpolation::Linear),
        knot(ONE, 200, KnotInterpolation::Linear),
        knot(2 * ONE, 300, KnotInterpolation::Linear),
    ]);
    // At the tie the curve answers for the last knot at that x.
    assert_eq!(curve.lookup(ONE), 200);
    assert_eq!(curve.lookup(2 * ONE), 300);
    // Just left of the tie the first segment is still blending towards 100.
    let near = curve.lookup(ONE - 1);
    assert!((near - 100).abs() <= 1);
}

#[test]
fn editing_keeps_order() {
    let mut curve = LookupCurve::new(vec![
        knot(0, 0, KnotInterpolation::Linear),
        knot(2 * ONE, 2, KnotInterpolation::Linear),
    ]);
    let i = curve.add_knot(knot(ONE, 1, KnotInterpolation::Linear));
    assert_eq!(i, 1);
    assert_eq!(curve.knots().len(), 3);
    assert_eq!(curve.knots()[1].position.y, 1);

    let j = curve.modify_knot(1, knot(3 * ONE, 9, KnotInterpolation::Linear));
    assert_eq!(j, 2);
    assert_eq!(curve.knots()[2].position.y, 9);
    for w in curve.knots().windows(2) {
        assert!(w[0].position.x <= w[1].position.x);
    }

    curve.delete_knot(0);
    assert_eq!(curve.knots().len(), 2);
    assert_eq!(curve.knots()[0].position.x, 2 * ONE);
}

#[test]
fn rebuilding_from_projection_round_trips() {
    let saved = LookupCurve::new(vec![
        knot(0, 7, KnotInterpolation::Constant),
        knot(ONE, -4, KnotInterpolation::Cubic),
        knot(2 * ONE, 11, KnotInterpolation::Linear),
    ]);
    let rebuilt = LookupCurve::new(saved.knots().clone());
    assert_eq!(saved.knots(), rebuilt.knots());
    for i in -8..=40 {
        let x = i * ONE / 16;
        assert_eq!(saved.lookup(x), rebuilt.lookup(x));
    }
}

#[test]
fn linear_blend_hits_exact_midpoint() {
    let curve = LookupCurve::new(vec![
        knot(0, 0, KnotInterpolation::Linear),
        knot(2 * ONE, ONE, KnotInterpolation::Linear),
    ]);
    assert_eq!(curve.lookup(ONE), ONE / 2);
    assert_eq!(curve.lookup(ONE / 2), ONE / 4);
    assert_eq!(curve.lookup(3 * ONE / 2), 3 * ONE / 4);
}
