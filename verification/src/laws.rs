//! The laws the curve obeys, proved against the same spec functions the
//! query contracts use.
//!
//! Cache transparency — that `lookup_cached` returns the value `lookup`
//! returns, for every query and every cache history — is not restated here:
//! it is the contracts themselves, since both entry points ensure equality
//! with `spec_lookup` of the same curve and query.

use crate::curve::is_seg;
use crate::curve::knots_bounded_all;
use crate::curve::knots_sorted;
use crate::curve::lemma_locate_unique;
use crate::curve::spec_clamped;
use crate::curve::spec_lookup;
use crate::curve::spec_wf;
use crate::knot::Knot;
use crate::knot::KnotInterpolation;
use crate::knot::knot_bounded;
use crate::knot::spec_clamp_knot;
use crate::math::ONE;
use crate::segment::spec_lerp;
use crate::segment::spec_lerp_t;
use crate::segment::spec_segment_value;
use vstd::arithmetic::div_mod::lemma_div_multiples_vanish;
use vstd::prelude::*;

verus! {

/// Control points are interpolated exactly: querying a curve at a knot's x
/// returns that knot's y, whatever the knot's interpolation mode.
///
/// When several knots share one x the curve steps there and answers for the
/// last of them, so the law speaks of the last knot at its x — which is
/// every knot when the x positions are strictly increasing.
pub proof fn lemma_knot_interpolated(s: Seq<Knot>, k: int)
    requires
        spec_wf(s),
        0 <= k < s.len(),
        forall|j: int| k < j < s.len() ==> s[k].position.x != #[trigger] s[j].position.x,
    ensures
        spec_lookup(s, s[k].position.x as int) == s[k].position.y,
{
    let x = s[k].position.x as int;
    assert(s[0].position.x <= s[k].position.x);
    if k == s.len() - 1 {
        assert(s[s.len() - 1].position.x <= x);
    } else {
        assert(s[k].position.x <= s[k + 1].position.x);
        assert(s[k + 1].position.x != s[k].position.x);
        assert(x < s[k + 1].position.x);
        assert(s[k + 1].position.x <= s[s.len() - 1].position.x);
        assert(is_seg(s, x, k));
        lemma_locate_unique(s, x, k);
        let a = s[k];
        let b = s[k + 1];
        assert(spec_segment_value(a, b, x) == a.position.y) by {
            match a.interpolation {
                KnotInterpolation::Constant => {},
                KnotInterpolation::Linear => {},
                KnotInterpolation::Cubic => {},
            }
        }
    }
}

/// Hold-below extrapolation: left of the first knot the curve is flat at
/// the first knot's y.
pub proof fn lemma_extrapolate_below(s: Seq<Knot>, x: int)
    requires
        s.len() > 0,
        x < s[0].position.x,
    ensures
        spec_lookup(s, x) == s[0].position.y,
{
}

/// Hold-above extrapolation: at and right of the last knot the curve is
/// flat at the last knot's y.
pub proof fn lemma_extrapolate_above(s: Seq<Knot>, x: int)
    requires
        knots_sorted(s),
        s.len() > 0,
        s[s.len() - 1].position.x <= x,
    ensures
        spec_lookup(s, x) == s[s.len() - 1].position.y,
{
    if s.len() > 1 {
        assert(s[0].position.x <= s[s.len() - 1].position.x);
    }
}

/// A linear curve through (0, 0) and (ONE, ONE) is the identity on [0, ONE]:
/// the fixed-point blend is exact, with no rounding residue.
pub proof fn lemma_linear_unit_identity(a: Knot, b: Knot, x: int)
    requires
        a.position.x == 0,
        a.position.y == 0,
        a.interpolation is Linear,
        b.position.x == ONE,
        b.position.y == ONE,
        0 <= x <= ONE,
    ensures
        spec_lookup(seq![a, b], x) == x,
{
    let s = seq![a, b];
    assert(s[0] == a && s[1] == b);
    if x == ONE {
        assert(spec_lookup(s, x) == b.position.y);
    } else {
        assert(is_seg(s, x, 0));
        lemma_locate_unique(s, x, 0);
        if x == 0 {
            assert(spec_segment_value(a, b, x) == a.position.y);
        } else {
            lemma_div_multiples_vanish(x, ONE as int);
            assert((ONE as int) * x == x * (ONE as int));
            assert(spec_lerp_t(0, ONE as int, x) == x);
            assert((a.position.y as int) * ((ONE as int) - x) == 0);
            assert(spec_lerp(0, ONE as int, x) == ((ONE as int) * x) / (ONE as int));
            assert(spec_lookup(s, x) == x);
        }
    }
}

/// Bringing an already well-formed knot sequence into range changes
/// nothing: together with the contracts of `LookupCurve::new` and
/// `LookupCurve::knots`, rebuilding a curve from its own knot projection
/// reproduces the same knot multiset — the projection is lossless.
pub proof fn lemma_clamp_lossless(s: Seq<Knot>)
    requires
        knots_bounded_all(s),
    ensures
        spec_clamped(s) =~= s,
{
    assert forall|i: int| 0 <= i < s.len() implies spec_clamped(s)[i] == s[i] by {
        assert(knot_bounded(s[i]));
        assert(spec_clamp_knot(s[i]) == s[i]);
    }
}

} // verus!
