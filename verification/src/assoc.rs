//! A keyed store backed by a vector of entries.
//!
//! The ledger needs a handful of small finite maps (identifier to owner,
//! approval triples, per-owner counters, attribute records).  All of them
//! are kept as vectors of key/value pairs with pairwise distinct keys and
//! are specified through one abstraction: the mathematical `Map` from key
//! views to value views.

use vstd::prelude::*;
use vstd::pervasive::VecAdditionalExecFns;

verus! {

/// Key equality decided in executable code, agreeing with deep views.
pub trait DeepEq: DeepView + Sized {
    /// Returns true exactly when the two values have equal deep views.
    fn deep_eq(&self, other: &Self) -> (r: bool)
        ensures
            r == (self.deep_view() == other.deep_view());
}

/// Byte-vector equality, element by element.
pub fn bytes_eq(a: &Vec<u8>, b: &Vec<u8>) -> (r: bool)
    ensures
        r == (a@ == b@),
{
    if a.len() != b.len() {
        return false;
    }
    let mut i: usize = 0;
    while i < a.len()
        invariant
            0 <= i <= a@.len(),
            a@.len() == b@.len(),
            forall|j: int| 0 <= j < i ==> a@[j] == b@[j],
        decreases a@.len() - i,
    {
        if a[i] != b[i] {
            return false;
        }
        i = i + 1;
    }
    proof {
        assert(a@ =~= b@);
    }
    true
}

impl DeepEq for Vec<u8> {
    fn deep_eq(&self, other: &Self) -> (r: bool) {
        let r = bytes_eq(self, other);
        proof {
            assert(self.deep_view() =~= self@);
            assert(other.deep_view() =~= other@);
        }
        r
    }
}

impl<T: DeepEq> DeepEq for Option<T> {
    fn deep_eq(&self, other: &Self) -> (r: bool) {
        match (self, other) {
            (Option::None, Option::None) => true,
            (Option::Some(a), Option::Some(b)) => a.deep_eq(b),
            _ => false,
        }
    }
}

impl<A: DeepEq, B: DeepEq> DeepEq for (A, B) {
    fn deep_eq(&self, other: &Self) -> (r: bool) {
        self.0.deep_eq(&other.0) && self.1.deep_eq(&other.1)
    }
}

impl<A: DeepEq, B: DeepEq, C: DeepEq> DeepEq for (A, B, C) {
    fn deep_eq(&self, other: &Self) -> (r: bool) {
        self.0.deep_eq(&other.0) && self.1.deep_eq(&other.1) && self.2.deep_eq(&other.2)
    }
}

/// The map described by a sequence of entries, later entries overriding
/// earlier ones (with distinct keys the order never matters).
pub open spec fn assoc_map<K: DeepEq, V: DeepView>(s: Seq<(K, V)>) -> Map<
    <K as DeepView>::V,
    <V as DeepView>::V,
>
    decreases s.len(),
{
    if s.len() == 0 {
        Map::empty()
    } else {
        assoc_map(s.drop_last()).insert(s.last().0.deep_view(), s.last().1.deep_view())
    }
}

/// Pairwise distinct keys, compared by deep view.
pub open spec fn unique_keys<K: DeepEq, V: DeepView>(s: Seq<(K, V)>) -> bool {
    forall|i: int, j: int|
        0 <= i < j < s.len() ==> s[i].0.deep_view() != s[j].0.deep_view()
}

/// The domain of the described map is finite and is exactly the set of
/// keys occurring in the sequence.
proof fn lemma_assoc_map_dom<K: DeepEq, V: DeepView>(s: Seq<(K, V)>)
    ensures
        assoc_map(s).dom().finite(),
        forall|k: <K as DeepView>::V| #[trigger]
            assoc_map(s).dom().contains(k) ==> exists|i: int|
                0 <= i < s.len() && #[trigger] s[i].0.deep_view() == k,
        forall|i: int|
            0 <= i < s.len() ==> #[trigger] assoc_map(s).dom().contains(s[i].0.deep_view()),
    decreases s.len(),
{
    if s.len() > 0 {
        lemma_assoc_map_dom(s.drop_last());
        assert forall|k: <K as DeepView>::V| #[trigger]
            assoc_map(s).dom().contains(k) implies exists|i: int|
            0 <= i < s.len() && #[trigger] s[i].0.deep_view() == k by {
            if k == s.last().0.deep_view() {
                assert(s[s.len() - 1].0.deep_view() == k);
            } else {
                assert(assoc_map(s.drop_last()).dom().contains(k));
                let i = choose|i: int|
                    0 <= i < s.drop_last().len() && #[trigger] s.drop_last()[i].0.deep_view() == k;
                assert(s[i].0.deep_view() == k);
            }
        }
        assert forall|i: int| 0 <= i < s.len() implies #[trigger] assoc_map(s).dom().contains(
            s[i].0.deep_view(),
        ) by {
            if i < s.len() - 1 {
                assert(assoc_map(s.drop_last()).dom().contains(s.drop_last()[i].0.deep_view()));
            }
        }
    }
}

/// With distinct keys, the entry at any index gives the map's value there.
proof fn lemma_assoc_map_index<K: DeepEq, V: DeepView>(s: Seq<(K, V)>, i: int)
    requires
        unique_keys(s),
        0 <= i < s.len(),
    ensures
        assoc_map(s)[s[i].0.deep_view()] == s[i].1.deep_view(),
    decreases s.len(),
{
    if i < s.len() - 1 {
        assert(s.drop_last()[i] == s[i]);
        lemma_assoc_map_index(s.drop_last(), i);
        assert(s[i].0.deep_view() != s.last().0.deep_view());
    }
}

/// Removing the entry at an index removes its key from the map.
proof fn lemma_assoc_map_remove<K: DeepEq, V: DeepView>(s: Seq<(K, V)>, i: int)
    requires
        unique_keys(s),
        0 <= i < s.len(),
    ensures
        assoc_map(s.remove(i)) == assoc_map(s).remove(s[i].0.deep_view()),
        unique_keys(s.remove(i)),
    decreases s.len(),
{
    lemma_assoc_map_dom(s.drop_last());
    if i == s.len() - 1 {
        assert(s.remove(i) =~= s.drop_last());
        assert(!assoc_map(s.drop_last()).dom().contains(s[i].0.deep_view()));
        assert(assoc_map(s.drop_last()) =~= assoc_map(s).remove(s[i].0.deep_view()));
    } else {
        let t = s.drop_last();
        lemma_assoc_map_remove(t, i);
        assert(s.remove(i).drop_last() =~= t.remove(i));
        assert(s.remove(i).last() == s.last());
        assert(assoc_map(s.remove(i)) == assoc_map(t.remove(i)).insert(
            s.last().0.deep_view(),
            s.last().1.deep_view(),
        ));
        assert(s[i].0.deep_view() != s.last().0.deep_view());
        assert(assoc_map(t).remove(s[i].0.deep_view()).insert(
            s.last().0.deep_view(),
            s.last().1.deep_view(),
        ) =~= assoc_map(s).remove(s[i].0.deep_view()));
    }
}

/// Replacing the entry at an index, keeping its key, updates the map there.
proof fn lemma_assoc_map_update<K: DeepEq, V: DeepView>(s: Seq<(K, V)>, i: int, e: (K, V))
    requires
        unique_keys(s),
        0 <= i < s.len(),
        e.0.deep_view() == s[i].0.deep_view(),
    ensures
        assoc_map(s.update(i, e)) == assoc_map(s).insert(e.0.deep_view(), e.1.deep_view()),
        unique_keys(s.update(i, e)),
    decreases s.len(),
{
    if i == s.len() - 1 {
        assert(s.update(i, e).drop_last() =~= s.drop_last());
        assert(s.update(i, e).last() == e);
        assert(assoc_map(s.drop_last()).insert(e.0.deep_view(), e.1.deep_view()) =~= assoc_map(
            s,
        ).insert(e.0.deep_view(), e.1.deep_view()));
    } else {
        let t = s.drop_last();
        lemma_assoc_map_update(t, i, e);
        assert(s.update(i, e).drop_last() =~= t.update(i, e));
        assert(s.update(i, e).last() == s.last());
        assert(s[i].0.deep_view() != s.last().0.deep_view());
        assert(assoc_map(t).insert(e.0.deep_view(), e.1.deep_view()).insert(
            s.last().0.deep_view(),
            s.last().1.deep_view(),
        ) =~= assoc_map(s).insert(e.0.deep_view(), e.1.deep_view()));
    }
}

/// A keyed store: a vector of entries with pairwise distinct keys, seen in
/// specifications as the `Map` from key views to value views.
pub struct AssocVec<K: DeepEq, V: DeepView> {
    entries: Vec<(K, V)>,
}

impl<K: DeepEq, V: DeepView> AssocVec<K, V> {
    /// The mathematical map this store holds.
    pub closed spec fn to_map(&self) -> Map<<K as DeepView>::V, <V as DeepView>::V> {
        assoc_map(self.entries@)
    }

    /// Well-formed: the stored keys are pairwise distinct.
    pub closed spec fn wf(&self) -> bool {
        unique_keys(self.entries@)
    }

    /// The domain of a well-formed store's map is finite.
    pub proof fn lemma_dom_finite(&self)
        ensures
            self.to_map().dom().finite(),
    {
        lemma_assoc_map_dom(self.entries@);
    }

    /// An empty store.
    pub fn new() -> (r: Self)
        ensures
            r.wf(),
            r.to_map() == Map::<<K as DeepView>::V, <V as DeepView>::V>::empty(),
    {
        AssocVec { entries: Vec::new() }
    }

    /// Looks a key up, returning a reference to the stored value if any.
    pub fn get(&self, k: &K) -> (r: Option<&V>)
        requires
            self.wf(),
        ensures
            match r {
                Option::Some(v) => self.to_map().dom().contains(k.deep_view())
                    && v.deep_view() == self.to_map()[k.deep_view()],
                Option::None => !self.to_map().dom().contains(k.deep_view()),
            },
    {
        proof {
            lemma_assoc_map_dom(self.entries@);
        }
        let n = self.entries.len();
        let mut i: usize = 0;
        while i < n
            invariant
                self.wf(),
                0 <= i <= n,
                n == self.entries@.len(),
                forall|j: int|
                    0 <= j < i ==> (#[trigger] self.entries@[j].0.deep_view())
                        != k.deep_view(),
            decreases n - i,
        {
            let e = &self.entries[i];
            if e.0.deep_eq(k) {
                proof {
                    lemma_assoc_map_dom(self.entries@);
                    lemma_assoc_map_index(self.entries@, i as int);
                    assert(self.entries@[i as int].0.deep_view() == k.deep_view());
                    assert(assoc_map(self.entries@).dom().contains(self.entries@[i as int].0.deep_view()));
                }
                return Some(&e.1);
            }
            i = i + 1;
        }
        proof {
            if self.to_map().dom().contains(k.deep_view()) {
                let j = choose|j: int|
                    0 <= j < self.entries@.len() && #[trigger] self.entries@[j].0.deep_view()
                        == k.deep_view();
                assert(false);
            }
        }
        None
    }

    /// Inserts a value under a key, replacing any previous value.
    pub fn insert(&mut self, k: K, v: V)
        requires
            old(self).wf(),
        ensures
            final(self).wf(),
            final(self).to_map() == old(self).to_map().insert(k.deep_view(), v.deep_view()),
    {
        let n = self.entries.len();
        let mut i: usize = 0;
        while i < n
            invariant
                self.wf(),
                self.entries@ == old(self).entries@,
                0 <= i <= n,
                n == self.entries@.len(),
                forall|j: int|
                    0 <= j < i ==> (#[trigger] self.entries@[j].0.deep_view())
                        != k.deep_view(),
            decreases n - i,
        {
            let e = &self.entries[i];
            let hit = e.0.deep_eq(&k);
            if hit {
                proof {
                    lemma_assoc_map_update(self.entries@, i as int, (k, v));
                }
                self.entries.set(i, (k, v));
                return ;
            }
            i = i + 1;
        }
        proof {
            let s = self.entries@.push((k, v));
            assert(s.drop_last() =~= self.entries@);
            assert forall|a: int, b: int| 0 <= a < b < s.len() implies s[a].0.deep_view()
                != s[b].0.deep_view() by {
                if b < s.len() - 1 {
                    assert(self.entries@[a].0.deep_view() != self.entries@[b].0.deep_view());
                } else {
                    assert(self.entries@[a].0.deep_view() != k.deep_view());
                }
            }
        }
        self.entries.push((k, v));
    }

    /// Removes a key, returning the stored value if the key was present.
    pub fn remove(&mut self, k: &K) -> (r: Option<V>)
        requires
            old(self).wf(),
        ensures
            final(self).wf(),
            final(self).to_map() == old(self).to_map().remove(k.deep_view()),
            match r {
                Option::Some(v) => old(self).to_map().dom().contains(k.deep_view())
                    && v.deep_view() == old(self).to_map()[k.deep_view()],
                Option::None => !old(self).to_map().dom().contains(k.deep_view()),
            },
    {
        proof {
            lemma_assoc_map_dom(self.entries@);
        }
        let n = self.entries.len();
        let mut i: usize = 0;
        while i < n
            invariant
                self.wf(),
                self.entries@ == old(self).entries@,
                0 <= i <= n,
                n == self.entries@.len(),
                forall|j: int|
                    0 <= j < i ==> (#[trigger] self.entries@[j].0.deep_view())
                        != k.deep_view(),
            decreases n - i,
        {
            let e = &self.entries[i];
            let hit = e.0.deep_eq(k);
            if hit {
                proof {
                    lemma_assoc_map_dom(self.entries@);
                    lemma_assoc_map_index(self.entries@, i as int);
                    lemma_assoc_map_remove(self.entries@, i as int);
                    assert(self.entries@[i as int].0.deep_view() == k.deep_view());
                    assert(assoc_map(self.entries@).dom().contains(self.entries@[i as int].0.deep_view()));
                }
                let e = self.entries.remove(i);
                return Some(e.1);
            }
            i = i + 1;
        }
        proof {
            if self.to_map().dom().contains(k.deep_view()) {
                let j = choose|j: int|
                    0 <= j < self.entries@.len() && #[trigger] self.entries@[j].0.deep_view()
                        == k.deep_view();
                assert(false);
            }
            assert(self.to_map() =~= self.to_map().remove(k.deep_view()));
        }
        None
    }
}

} // verus!
