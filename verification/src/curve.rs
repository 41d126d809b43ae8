//! The curve itself: an x-sorted knot sequence with construction, editing,
//! and the two query entry points.
//!
//! `lookup` locates the segment containing the query by binary search and
//! hands it to the segment evaluator. `lookup_cached` first probes the
//! segment remembered in the caller's `LookupCache` (and its neighbours),
//! falling back to the cold search; both paths are proved to return
//! `spec_lookup` of the same curve and query, so the cache can never change
//! a result — it is purely a warm start.

use crate::knot::Knot;
use crate::knot::clamp_knot;
use crate::knot::knot_bounded;
use crate::knot::spec_clamp_knot;
use crate::segment::eval_segment;
use crate::segment::spec_segment_u;
use crate::segment::spec_segment_value;
use vstd::prelude::*;

verus! {

/// Knot positions never decrease along the sequence.
pub open spec fn knots_sorted(s: Seq<Knot>) -> bool {
    forall|i: int, j: int|
        0 <= i < j < s.len() ==> #[trigger] s[i].position.x <= #[trigger] s[j].position.x
}

/// Every knot is inside the representable coordinate range.
pub open spec fn knots_bounded_all(s: Seq<Knot>) -> bool {
    forall|i: int| 0 <= i < s.len() ==> knot_bounded(#[trigger] s[i])
}

/// A knot sequence a curve may be queried in: sorted and in range.
pub open spec fn spec_wf(s: Seq<Knot>) -> bool {
    knots_sorted(s) && knots_bounded_all(s)
}

/// Index `i` starts the segment containing `x`: the knot at `i` is at or
/// left of `x` and the knot after it is strictly right of `x`.
pub open spec fn is_seg(s: Seq<Knot>, x: int, i: int) -> bool {
    &&& 0 <= i < s.len() - 1
    &&& s[i].position.x <= x
    &&& x < s[i + 1].position.x
}

/// The index of the segment containing `x`; unique in a sorted sequence.
pub open spec fn spec_locate(s: Seq<Knot>, x: int) -> int {
    choose|i: int| is_seg(s, x, i)
}

/// In a sorted sequence at most one index starts the segment containing `x`.
pub proof fn lemma_locate_unique(s: Seq<Knot>, x: int, i: int)
    requires
        knots_sorted(s),
        is_seg(s, x, i),
    ensures
        spec_locate(s, x) == i,
{
    assert(is_seg(s, x, i));
    let j = spec_locate(s, x);
    assert(is_seg(s, x, j));
    if j < i {
        assert(s[j + 1].position.x <= s[i].position.x);
        assert(false);
    }
    if i < j {
        assert(s[i + 1].position.x <= s[j].position.x);
        assert(false);
    }
}

/// `x` falls strictly inside the curve's domain, between the first and the
/// last knot.
pub open spec fn in_domain(s: Seq<Knot>, x: int) -> bool {
    &&& s.len() > 0
    &&& s[0].position.x <= x
    &&& x < s[s.len() - 1].position.x
}

/// What a query returns: zero on an empty curve; the nearest endpoint's y
/// outside the domain (hold-last-value extrapolation); the containing
/// segment's value inside it.
pub open spec fn spec_lookup(s: Seq<Knot>, x: int) -> int {
    if s.len() == 0 {
        0
    } else if x < s[0].position.x {
        s[0].position.y as int
    } else if s[s.len() - 1].position.x <= x {
        s[s.len() - 1].position.y as int
    } else {
        spec_segment_value(s[spec_locate(s, x)], s[spec_locate(s, x) + 1], x)
    }
}

/// The input knots brought into the representable range, in input order.
pub open spec fn spec_clamped(s: Seq<Knot>) -> Seq<Knot> {
    s.map_values(|k: Knot| spec_clamp_knot(k))
}

/// Inserting an element anywhere in a sequence adds it to the multiset of
/// elements.
proof fn lemma_insert_to_multiset(s: Seq<Knot>, i: int, k: Knot)
    requires
        0 <= i <= s.len(),
    ensures
        s.insert(i, k).to_multiset() =~= s.to_multiset().insert(k),
{
    broadcast use vstd::seq_lib::group_to_multiset_ensures;
    broadcast use vstd::multiset::group_multiset_axioms;

    let t = s.insert(i, k);
    s.insert_ensures(i, k);
    t.remove_ensures(i);
    assert(t.remove(i) =~= s);
    assert(t.remove(i).to_multiset() == t.to_multiset().remove(t[i]));
    assert(t[i] == k);
    assert(t.contains(k));
    assert(t.to_multiset().count(k) > 0);
    assert forall|e: Knot| t.to_multiset().count(e) == s.to_multiset().insert(k).count(e) by {
        assert(s.to_multiset() == t.to_multiset().remove(k));
    }
    assert(t.to_multiset() =~= s.to_multiset().insert(k));
}

/// Warm-start state one caller threads through its queries: the segment the
/// last query resolved and, for cubic segments, the last solved Bezier
/// parameter. It is only a hint — a stale or foreign cache can cost a cold
/// search but never change a result.
pub struct LookupCache {
    index: usize,
    u: i64,
}

impl LookupCache {
    /// The remembered segment index.
    pub closed spec fn spec_index(&self) -> int {
        self.index as int
    }

    /// The remembered Bezier parameter.
    pub closed spec fn spec_u(&self) -> int {
        self.u as int
    }

    /// A cold cache: no hint yet; the first query behaves like `lookup`.
    pub fn new() -> (c: LookupCache)
        ensures
            c.spec_index() == 0,
            c.spec_u() == 0,
    {
        LookupCache { index: 0, u: 0 }
    }
}

impl Default for LookupCache {
    fn default() -> (c: LookupCache)
        ensures
            c.spec_index() == 0,
            c.spec_u() == 0,
    {
        LookupCache::new()
    }
}

/// An ordered, x-sorted sequence of knots.
pub struct LookupCurve {
    knots: Vec<Knot>,
}

impl View for LookupCurve {
    type V = Seq<Knot>;

    closed spec fn view(&self) -> Seq<Knot> {
        self.knots@
    }
}

impl LookupCurve {
    /// The curve can be queried: its knots are sorted and in range. Every
    /// constructor and editing method maintains this.
    pub open spec fn wf(&self) -> bool {
        spec_wf(self@)
    }

    /// Build a curve from knots in any order: they are brought into the
    /// representable range and sorted ascending by x. Construction never
    /// fails; this is the only point sorting occurs.
    pub fn new(input: Vec<Knot>) -> (c: LookupCurve)
        ensures
            c.wf(),
            c@.len() == input@.len(),
            c@.to_multiset() == spec_clamped(input@).to_multiset(),
    {
        let mut c = LookupCurve { knots: Vec::new() };
        let mut idx: usize = 0;
        proof {
            assert(spec_clamped(input@.subrange(0, 0)) =~= Seq::<Knot>::empty());
            broadcast use vstd::seq_lib::group_to_multiset_ensures;
        }
        while idx < input.len()
            invariant
                idx <= input@.len(),
                c.wf(),
                c@.len() == idx,
                c@.to_multiset() == spec_clamped(input@.subrange(0, idx as int)).to_multiset(),
            decreases input@.len() - idx,
        {
            let ghost pre = c@;
            let _ = c.add_knot(input[idx]);
            proof {
                broadcast use vstd::seq_lib::group_to_multiset_ensures;

                let sub1 = input@.subrange(0, idx as int);
                let sub2 = input@.subrange(0, idx + 1);
                assert(sub2 =~= sub1.push(input@[idx as int]));
                assert(spec_clamped(sub2) =~= spec_clamped(sub1).push(
                    spec_clamp_knot(input@[idx as int]),
                ));
                assert(spec_clamped(sub1).push(spec_clamp_knot(input@[idx as int])).to_multiset()
                    =~= spec_clamped(sub1).to_multiset().insert(
                    spec_clamp_knot(input@[idx as int]),
                ));
            }
            idx = idx + 1;
        }
        proof {
            assert(input@.subrange(0, input@.len() as int) =~= input@);
        }
        c
    }

    /// The knot sequence, the plain-data projection an editor reads and a
    /// serializer persists: together with `new` it round-trips a curve.
    pub fn knots(&self) -> (r: &Vec<Knot>)
        ensures
            r@ == self@,
    {
        &self.knots
    }

    /// Insert a knot (brought into range) at its sorted position, after any
    /// knots sharing its x; returns the insertion index.
    pub fn add_knot(&mut self, k: Knot) -> (i: usize)
        requires
            old(self).wf(),
        ensures
            final(self).wf(),
            i <= old(self)@.len(),
            final(self)@ == old(self)@.insert(i as int, spec_clamp_knot(k)),
            final(self)@.to_multiset() == old(self)@.to_multiset().insert(spec_clamp_knot(k)),
    {
        let ck = clamp_knot(&k);
        let n = self.knots.len();
        let mut i: usize = 0;
        while i < n && self.knots[i].position.x <= ck.position.x
            invariant
                i <= n,
                n == self@.len(),
                self == old(self),
                forall|t: int| 0 <= t < i ==> #[trigger] self@[t].position.x <= ck.position.x,
            decreases n - i,
        {
            i = i + 1;
        }
        let ghost s = self@;
        self.knots.insert(i, ck);
        proof {
            s.insert_ensures(i as int, ck);
            let t = self@;
            assert forall|p: int, q: int|
                0 <= p < q < t.len() implies t[p].position.x <= t[q].position.x by {
                if q < i {
                    assert(t[p] == s[p] && t[q] == s[q]);
                } else if p > i {
                    assert(t[p] == s[p - 1] && t[q] == s[q - 1]);
                } else if p < i && q > i {
                    assert(t[p] == s[p] && t[q] == s[q - 1]);
                } else if p == i {
                    assert(t[p] == ck && t[q] == s[q - 1]);
                    assert(i < n ==> ck.position.x < s[i as int].position.x);
                    assert(s[i as int].position.x <= s[q - 1].position.x);
                } else {
                    assert(q == i && t[q] == ck && t[p] == s[p]);
                }
            }
            assert forall|p: int| 0 <= p < t.len() implies knot_bounded(t[p]) by {
                if p < i {
                    assert(t[p] == s[p]);
                } else if p > i {
                    assert(t[p] == s[p - 1]);
                } else {
                    assert(t[p] == ck);
                }
            }
            lemma_insert_to_multiset(s, i as int, ck);
        }
        i
    }

    /// Remove the knot at `i`, keeping the remaining order.
    pub fn delete_knot(&mut self, i: usize)
        requires
            old(self).wf(),
            i < old(self)@.len(),
        ensures
            final(self).wf(),
            final(self)@ == old(self)@.remove(i as int),
    {
        let ghost s = self@;
        let _ = self.knots.remove(i);
        proof {
            s.remove_ensures(i as int);
            let t = self@;
            assert forall|p: int, q: int|
                0 <= p < q < t.len() implies t[p].position.x <= t[q].position.x by {
                if q < i {
                } else if p >= i {
                    assert(t[p] == s[p + 1] && t[q] == s[q + 1]);
                } else {
                    assert(t[p] == s[p] && t[q] == s[q + 1]);
                }
            }
            assert forall|p: int| 0 <= p < t.len() implies knot_bounded(t[p]) by {
                if p < i {
                    assert(t[p] == s[p]);
                } else {
                    assert(t[p] == s[p + 1]);
                }
            }
        }
    }

    /// Replace the knot at `i`: remove it and insert the new knot (brought
    /// into range) at its sorted position, which is returned. This is the
    /// re-sort/re-validate step an edit must be followed by, built in.
    pub fn modify_knot(&mut self, i: usize, k: Knot) -> (j: usize)
        requires
            old(self).wf(),
            i < old(self)@.len(),
        ensures
            final(self).wf(),
            j < old(self)@.len(),
            final(self)@ == old(self)@.remove(i as int).insert(j as int, spec_clamp_knot(k)),
    {
        self.delete_knot(i);
        self.add_knot(k)
    }

    /// Binary search for the segment containing an in-domain `x`.
    fn locate(&self, x: i64) -> (i: usize)
        requires
            self.wf(),
            in_domain(self@, x as int),
        ensures
            is_seg(self@, x as int, i as int),
    {
        let n = self.knots.len();
        let mut lo: usize = 0;
        let mut hi: usize = n - 1;
        while lo + 1 < hi
            invariant
                self.wf(),
                n == self@.len(),
                lo < hi <= n - 1,
                self@[lo as int].position.x <= x,
                x < self@[hi as int].position.x,
            decreases hi - lo,
        {
            let mid = lo + (hi - lo) / 2;
            if self.knots[mid].position.x <= x {
                lo = mid;
            } else {
                hi = mid;
            }
        }
        lo
    }

    /// Query the curve at `x`.
    ///
    /// Outside the domain this holds the nearest endpoint's value; an empty
    /// curve answers zero; inside, the containing segment is evaluated.
    pub fn lookup(&self, x: i64) -> (y: i64)
        requires
            self.wf(),
        ensures
            y == spec_lookup(self@, x as int),
    {
        let n = self.knots.len();
        if n == 0 {
            return 0;
        }
        if x < self.knots[0].position.x {
            return self.knots[0].position.y;
        }
        if self.knots[n - 1].position.x <= x {
            return self.knots[n - 1].position.y;
        }
        let i = self.locate(x);
        proof {
            lemma_locate_unique(self@, x as int, i as int);
        }
        let r = eval_segment(&self.knots[i], &self.knots[i + 1], x);
        r.0
    }

    /// Query the curve at `x`, warm-started by `cache`.
    ///
    /// Returns exactly `spec_lookup` of the curve and `x` — the same value
    /// `lookup` returns — for every cache history: the cache is transparent.
    /// For an in-domain query the resolved segment index and Bezier
    /// parameter are written back; otherwise the cache is left unchanged.
    pub fn lookup_cached(&self, x: i64, cache: &mut LookupCache) -> (y: i64)
        requires
            self.wf(),
        ensures
            y == spec_lookup(self@, x as int),
            in_domain(self@, x as int) ==> {
                let seg = spec_locate(self@, x as int);
                &&& final(cache).spec_index() == seg
                &&& final(cache).spec_u() == spec_segment_u(self@[seg], self@[seg + 1], x as int)
            },
            !in_domain(self@, x as int) ==> *final(cache) == *old(cache),
    {
        let n = self.knots.len();
        if n == 0 {
            return 0;
        }
        if x < self.knots[0].position.x {
            return self.knots[0].position.y;
        }
        if self.knots[n - 1].position.x <= x {
            return self.knots[n - 1].position.y;
        }
        let ci = cache.index;
        let i: usize = if ci < n - 1 && self.knots[ci].position.x <= x && x < self.knots[ci
            + 1].position.x {
            ci
        } else if n >= 2 && ci < n - 2 && self.knots[ci + 1].position.x <= x && x < self.knots[ci
            + 2].position.x {
            ci + 1
        } else if ci >= 1 && ci - 1 < n - 1 && self.knots[ci - 1].position.x <= x
            && x < self.knots[ci].position.x {
            ci - 1
        } else {
            self.locate(x)
        };
        proof {
            lemma_locate_unique(self@, x as int, i as int);
        }
        let r = eval_segment(&self.knots[i], &self.knots[i + 1], x);
        cache.index = i;
        cache.u = r.1;
        r.0
    }
}

} // verus!
