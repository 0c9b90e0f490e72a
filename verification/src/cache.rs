//! The slider spline cache: splines are memoized per control-point
//! sequence (value equality), so a slider is flattened once and then
//! looked up every frame. The whole cache is discarded on beatmap reload
//! by starting a fresh one.

use vstd::prelude::*;

use crate::geom::Point;
use crate::spline::{build_matches, CurveKind, Spline, SplineError, CTRL_LIMIT, LEN_LIMIT};

verus! {

/// One cached spline and the control points it was built from.
struct CacheEntry {
    key: Vec<Point>,
    spline: Spline,
}

/// A spline per control-point sequence.
pub struct SliderCache {
    entries: Vec<CacheEntry>,
}

impl SliderCache {
    /// Whether a spline is cached under this key.
    pub closed spec fn contains_spec(self, key: Seq<Point>) -> bool {
        exists|i: int| 0 <= i < self.entries@.len() && (#[trigger] self.entries@[i]).key@ == key
    }

    /// The position of a cached key.
    pub closed spec fn index_of(self, key: Seq<Point>) -> int {
        choose|i: int| 0 <= i < self.entries@.len() && (#[trigger] self.entries@[i]).key@ == key
    }

    /// The spline cached under a contained key.
    pub closed spec fn spline_at(self, key: Seq<Point>) -> Spline {
        self.entries@[self.index_of(key)].spline
    }

    /// Keys are unique and every cached spline is well-formed.
    pub closed spec fn wf(self) -> bool {
        &&& forall|i: int, j: int|
            0 <= i < j < self.entries@.len() ==> (#[trigger] self.entries@[i]).key@ != (
            #[trigger] self.entries@[j]).key@
        &&& forall|i: int| 0 <= i < self.entries@.len() ==> (#[trigger] self.entries@[i]).spline.wf()
    }

    /// An empty cache.
    pub fn new() -> (r: SliderCache)
        ensures
            r.wf(),
            forall|key: Seq<Point>| !r.contains_spec(key),
    {
        SliderCache { entries: Vec::new() }
    }

    /// Looks the key up; `None` exactly when nothing is cached under it.
    pub fn get(&self, key: &Vec<Point>) -> (r: Option<&Spline>)
        requires
            self.wf(),
        ensures
            r is Some <==> self.contains_spec(key@),
            r is Some ==> *r->Some_0 == self.spline_at(key@) && r->Some_0.wf(),
    {
        let n = self.entries.len();
        let mut i: usize = 0;
        while i < n
            invariant
                i <= n,
                n == self.entries@.len(),
                self.wf(),
                forall|q: int| 0 <= q < i ==> (#[trigger] self.entries@[q]).key@ != key@,
            decreases n - i,
        {
            if keys_equal(&self.entries[i].key, key) {
                proof {
                    assert(self.entries@[i as int].key@ == key@);
                    assert(self.index_of(key@) == i as int);
                }
                return Some(&self.entries[i].spline);
            }
            i += 1;
        }
        None
    }

    /// Whether a spline is cached under this key.
    pub fn contains_key(&self, key: &Vec<Point>) -> (b: bool)
        requires
            self.wf(),
        ensures
            b == self.contains_spec(key@),
    {
        let r = self.get(key);
        r.is_some()
    }

    /// Caches a spline under a key, replacing what the key held before.
    /// Every other key keeps its spline.
    pub fn insert(&mut self, key: Vec<Point>, spline: Spline)
        requires
            old(self).wf(),
            spline.wf(),
        ensures
            final(self).wf(),
            final(self).contains_spec(key@),
            final(self).spline_at(key@) == spline,
            forall|other: Seq<Point>|
                other != key@ ==> #[trigger] final(self).contains_spec(other) == old(self).contains_spec(other),
            forall|other: Seq<Point>|
                other != key@ && old(self).contains_spec(other) ==> #[trigger] final(self).spline_at(other) == old(self).spline_at(other),
    {
        let n = self.entries.len();
        let mut i: usize = 0;
        while i < n
            invariant
                i <= n,
                n == self.entries@.len(),
                self.wf(),
                *self == *old(self),
                spline.wf(),
                forall|q: int| 0 <= q < i ==> (#[trigger] self.entries@[q]).key@ != key@,
            decreases n - i,
        {
            if keys_equal(&self.entries[i].key, &key) {
                self.entries.set(i, CacheEntry { key, spline });
                proof {
                    lemma_lookup(*self, key@, i as int);
                    assert forall|other: Seq<Point>|
                        other != key@ implies #[trigger] self.contains_spec(other) == old(self).contains_spec(other) by {
                        if old(self).contains_spec(other) {
                            let q = old(self).index_of(other);
                            assert(self.entries@[q].key@ == other);
                        }
                        if self.contains_spec(other) {
                            let q = self.index_of(other);
                            assert(old(self).entries@[q].key@ == other);
                        }
                    }
                    assert forall|other: Seq<Point>|
                        other != key@ && old(self).contains_spec(other) implies #[trigger] self
                        .spline_at(other) == old(self).spline_at(other) by {
                        let q = old(self).index_of(other);
                        assert(self.entries@[q].key@ == other);
                        lemma_lookup(*self, other, q);
                        lemma_lookup(*old(self), other, q);
                    }
                }
                return;
            }
            i += 1;
        }
        self.entries.push(CacheEntry { key, spline });
        proof {
            lemma_lookup(*self, key@, self.entries@.len() - 1);
            assert forall|other: Seq<Point>|
                other != key@ implies #[trigger] self.contains_spec(other) == old(self).contains_spec(other) by {
                if old(self).contains_spec(other) {
                    let q = old(self).index_of(other);
                    assert(self.entries@[q].key@ == other);
                }
                if self.contains_spec(other) {
                    let q = self.index_of(other);
                    assert(old(self).entries@[q].key@ == other);
                }
            }
            assert forall|other: Seq<Point>|
                other != key@ && old(self).contains_spec(other) implies #[trigger] self.spline_at(
                    other,
                ) == old(self).spline_at(other) by {
                let q = old(self).index_of(other);
                assert(self.entries@[q].key@ == other);
                lemma_lookup(*self, other, q);
                lemma_lookup(*old(self), other, q);
            }
        }
    }

    /// Returns the spline for this control-point sequence, building and
    /// caching it first when it is absent: equal control points are
    /// flattened once and answered from the cache from then on.
    pub fn get_or_build(
        &mut self,
        kind: CurveKind,
        control_points: &Vec<Point>,
        pixel_length: i64,
    ) -> (r: Result<&Spline, SplineError>)
        requires
            old(self).wf(),
            2 <= control_points@.len() <= 0x1000_0000,
            forall|i: int|
                0 <= i < control_points@.len() ==> (#[trigger] control_points@[i]).bounded(
                    CTRL_LIMIT as int,
                ),
            0 <= pixel_length <= LEN_LIMIT,
        ensures
            final(self).wf(),
            r is Ok ==> final(self).contains_spec(control_points@) && *r->Ok_0 == final(self).spline_at(control_points@) && r->Ok_0.wf(),
            old(self).contains_spec(control_points@) ==> r is Ok && *final(self) == *old(self),
            forall|other: Seq<Point>|
                other != control_points@ ==> #[trigger] final(self).contains_spec(other) == old(self).contains_spec(other),
            forall|other: Seq<Point>|
                other != control_points@ && old(self).contains_spec(other) ==> #[trigger] final(self).spline_at(other) == old(self).spline_at(other),
            !old(self).contains_spec(control_points@) ==> ({
                ||| (r is Ok && build_matches(
                    kind,
                    control_points@,
                    pixel_length as int,
                    Ok(*r->Ok_0),
                ))
                ||| (r is Err && build_matches(
                    kind,
                    control_points@,
                    pixel_length as int,
                    Err(r->Err_0),
                ) && *final(self) == *old(self))
            }),
    {
        if !self.contains_key(control_points) {
            let built = match Spline::from_control(kind, control_points, pixel_length) {
                Ok(s) => s,
                Err(e) => {
                    return Err(e);
                },
            };
            self.insert(clone_points(control_points), built);
        }
        let r = self.get(control_points);
        match r {
            Some(s) => Ok(s),
            None => {
                proof {
                    assert(false);
                }
                Err(SplineError::DegenerateCurve)
            },
        }
    }
}

/// A key that sits at some index is the one the lookup finds: keys are
/// unique in a well-formed cache.
proof fn lemma_lookup(c: SliderCache, key: Seq<Point>, i: int)
    requires
        c.wf(),
        0 <= i < c.entries@.len(),
        c.entries@[i].key@ == key,
    ensures
        c.contains_spec(key),
        c.index_of(key) == i,
        c.spline_at(key) == c.entries@[i].spline,
{
    let j = c.index_of(key);
    assert(0 <= j < c.entries@.len() && c.entries@[j].key@ == key);
}

/// Whether two control-point sequences are equal point for point.
fn keys_equal(a: &Vec<Point>, b: &Vec<Point>) -> (r: bool)
    ensures
        r == (a@ == b@),
{
    if a.len() != b.len() {
        return false;
    }
    let n = a.len();
    let mut i: usize = 0;
    while i < n
        invariant
            i <= n,
            n == a@.len(),
            a@.len() == b@.len(),
            forall|q: int| 0 <= q < i ==> #[trigger] a@[q] == b@[q],
        decreases n - i,
    {
        if !(a[i] == b[i]) {
            return false;
        }
        i += 1;
    }
    proof {
        assert(a@ =~= b@);
    }
    true
}

/// A copy of a control-point sequence, used as the cache key.
fn clone_points(pts: &Vec<Point>) -> (r: Vec<Point>)
    ensures
        r@ =~= pts@,
{
    let mut r: Vec<Point> = Vec::new();
    let n = pts.len();
    let mut i: usize = 0;
    while i < n
        invariant
            i <= n,
            n == pts@.len(),
            r@.len() == i,
            forall|q: int| 0 <= q < i ==> #[trigger] r@[q] == pts@[q],
        decreases n - i,
    {
        r.push(pts[i]);
        i += 1;
    }
    r
}

} // verus!
