//! A map that keeps its keys in ascending order, as one flat list.
use vstd::prelude::*;
use crate::text::less;

verus! {

/// What a key offers: a strict order of its views that tells any two apart.
pub trait Key: View + Sized {
    spec fn before(a: Self::V, b: Self::V) -> bool;

    proof fn lemma_irreflexive(a: Self::V)
        ensures
            !Self::before(a, a),
    ;

    proof fn lemma_transitive(a: Self::V, b: Self::V, c: Self::V)
        requires
            Self::before(a, b),
            Self::before(b, c),
        ensures
            Self::before(a, c),
    ;

    proof fn lemma_total(a: Self::V, b: Self::V)
        requires
            a != b,
        ensures
            Self::before(a, b) || Self::before(b, a),
    ;

    fn precedes(&self, other: &Self) -> (r: bool)
        ensures
            r == Self::before(self@, other@),
    ;
}

impl Key for u64 {
    open spec fn before(a: u64, b: u64) -> bool {
        a < b
    }

    proof fn lemma_irreflexive(a: u64) {
    }

    proof fn lemma_transitive(a: u64, b: u64, c: u64) {
    }

    proof fn lemma_total(a: u64, b: u64) {
    }

    fn precedes(&self, other: &u64) -> (r: bool) {
        *self < *other
    }
}

impl Key for String {
    open spec fn before(a: Seq<char>, b: Seq<char>) -> bool {
        crate::text::before(a, b)
    }

    proof fn lemma_irreflexive(a: Seq<char>) {
        crate::text::lemma_before_irreflexive(a, 0);
    }

    proof fn lemma_transitive(a: Seq<char>, b: Seq<char>, c: Seq<char>) {
        crate::text::lemma_before_transitive(a, b, c, 0);
    }

    proof fn lemma_total(a: Seq<char>, b: Seq<char>) {
        crate::text::lemma_before_total(a, b, 0);
    }

    fn precedes(&self, other: &String) -> (r: bool) {
        less(self.as_str(), other.as_str())
    }
}

/// Whether each key comes before those behind it.
pub open spec fn ordered<K: Key, V>(s: Seq<(K, V)>) -> bool {
    forall|i: int, j: int|
        0 <= i < j < s.len() ==> K::before((#[trigger] s[i]).0@, (#[trigger] s[j]).0@)
}

/// The map that a list of entries stands for, a later entry over an earlier one.
pub open spec fn map_of<K: Key, V>(s: Seq<(K, V)>) -> Map<K::V, V>
    decreases s.len(),
{
    if s.len() == 0 {
        Map::empty()
    } else {
        map_of(s.drop_last()).insert(s.last().0@, s.last().1)
    }
}

/// A map from `K` to `V` whose entries stand in ascending order of their keys.
pub struct SortedMap<K: Key, V> {
    pub entries: Vec<(K, V)>,
}

impl<K: Key, V> View for SortedMap<K, V> {
    type V = Map<K::V, V>;

    open spec fn view(&self) -> Map<K::V, V> {
        map_of(self.entries@)
    }
}

/// An entry's key maps to its value.
pub proof fn lemma_map_has<K: Key, V>(s: Seq<(K, V)>, i: int)
    requires
        ordered(s),
        0 <= i < s.len(),
    ensures
        map_of(s).dom().contains(s[i].0@),
        map_of(s)[s[i].0@] == s[i].1,
    decreases s.len(),
{
    if i < s.len() - 1 {
        lemma_map_has(s.drop_last(), i);
        assert(K::before(s[i].0@, s[s.len() - 1].0@));
        K::lemma_irreflexive(s[i].0@);
    }
}

proof fn lemma_map_lacks<K: Key, V>(s: Seq<(K, V)>, k: K::V)
    requires
        forall|i: int| 0 <= i < s.len() ==> (#[trigger] s[i]).0@ != k,
    ensures
        !map_of(s).dom().contains(k),
    decreases s.len(),
{
    if s.len() > 0 {
        assert(s[s.len() - 1].0@ != k);
        assert forall|i: int| 0 <= i < s.drop_last().len() implies (#[trigger] s.drop_last()[i]).0@
            != k by {
            assert(s[i].0@ != k);
        }
        lemma_map_lacks(s.drop_last(), k);
    }
}

/// Every key of the map has an entry.
pub proof fn lemma_key_has_entry<K: Key, V>(s: Seq<(K, V)>, k: K::V)
    requires
        map_of(s).dom().contains(k),
    ensures
        exists|i: int| 0 <= i < s.len() && (#[trigger] s[i]).0@ == k,
{
    if forall|i: int| 0 <= i < s.len() ==> (#[trigger] s[i]).0@ != k {
        lemma_map_lacks(s, k);
    }
}

proof fn lemma_map_insert<K: Key, V>(s: Seq<(K, V)>, i: int, e: (K, V))
    requires
        0 <= i <= s.len(),
        forall|j: int| 0 <= j < s.len() ==> (#[trigger] s[j]).0@ != e.0@,
    ensures
        map_of(s.insert(i, e)) == map_of(s).insert(e.0@, e.1),
    decreases s.len(),
{
    let t = s.insert(i, e);
    if i == s.len() {
        assert(t.drop_last() =~= s);
    } else {
        let r = s.drop_last();
        assert(s[s.len() - 1].0@ != e.0@);
        assert forall|j: int| 0 <= j < r.len() implies (#[trigger] r[j]).0@ != e.0@ by {
            assert(s[j].0@ != e.0@);
        }
        lemma_map_insert(r, i, e);
        assert(t.drop_last() =~= r.insert(i, e));
        assert(t.last() == s.last());
        assert(map_of(t) =~= map_of(s).insert(e.0@, e.1));
    }
}

proof fn lemma_map_update<K: Key, V>(s: Seq<(K, V)>, i: int, e: (K, V))
    requires
        ordered(s),
        0 <= i < s.len(),
        e.0@ == s[i].0@,
    ensures
        map_of(s.update(i, e)) == map_of(s).insert(e.0@, e.1),
    decreases s.len(),
{
    let t = s.update(i, e);
    if i == s.len() - 1 {
        assert(t.drop_last() =~= s.drop_last());
        assert(map_of(t) =~= map_of(s).insert(e.0@, e.1));
    } else {
        let r = s.drop_last();
        lemma_map_update(r, i, e);
        assert(t.drop_last() =~= r.update(i, e));
        assert(t.last() == s.last());
        assert(K::before(s[i].0@, s[s.len() - 1].0@));
        K::lemma_irreflexive(e.0@);
        assert(map_of(t) =~= map_of(s).insert(e.0@, e.1));
    }
}

proof fn lemma_map_remove<K: Key, V>(s: Seq<(K, V)>, i: int)
    requires
        ordered(s),
        0 <= i < s.len(),
    ensures
        map_of(s.remove(i)) == map_of(s).remove(s[i].0@),
    decreases s.len(),
{
    let t = s.remove(i);
    let k = s[i].0@;
    K::lemma_irreflexive(k);
    if i == s.len() - 1 {
        assert(t =~= s.drop_last());
        assert forall|j: int| 0 <= j < t.len() implies (#[trigger] t[j]).0@ != k by {
            assert(K::before(s[j].0@, s[i].0@));
        }
        lemma_map_lacks(t, k);
        assert(map_of(t) =~= map_of(s).remove(k));
    } else {
        let r = s.drop_last();
        lemma_map_remove(r, i);
        assert(t.drop_last() =~= r.remove(i));
        assert(t.last() == s.last());
        assert(K::before(s[i].0@, s[s.len() - 1].0@));
        assert(map_of(t) =~= map_of(s).remove(k));
    }
}

impl<K: Key, V> SortedMap<K, V> {
    /// The keys stand in ascending order, none of them twice.
    pub open spec fn wf(self) -> bool {
        ordered(self.entries@)
    }

    /// The map without entries.
    pub fn new() -> (r: Self)
        ensures
            r.wf(),
            r.entries@.len() == 0,
            r@ == Map::<K::V, V>::empty(),
    {
        SortedMap { entries: Vec::new() }
    }

    /// Where `k` stands, or would stand, and whether it does.
    fn place(&self, k: &K) -> (r: (usize, bool))
        requires
            self.wf(),
        ensures
            r.0 <= self.entries@.len(),
            forall|j: int| 0 <= j < r.0 ==> K::before((#[trigger] self.entries@[j]).0@, k@),
            r.1 ==> r.0 < self.entries@.len() && self.entries@[r.0 as int].0@ == k@,
            !r.1 ==> forall|j: int|
                r.0 <= j < self.entries@.len() ==> K::before(k@, (#[trigger] self.entries@[j]).0@),
    {
        let mut i: usize = 0;
        while i < self.entries.len() && self.entries[i].0.precedes(k)
            invariant
                i <= self.entries@.len(),
                self.wf(),
                forall|j: int| 0 <= j < i ==> K::before((#[trigger] self.entries@[j]).0@, k@),
            decreases self.entries@.len() - i,
        {
            i += 1;
        }
        if i == self.entries.len() {
            return (i, false);
        }
        if k.precedes(&self.entries[i].0) {
            proof {
                assert forall|j: int| i <= j < self.entries@.len() implies K::before(
                    k@,
                    (#[trigger] self.entries@[j]).0@,
                ) by {
                    if j > i {
                        let e = self.entries@[i as int];
                        K::lemma_transitive(k@, e.0@, self.entries@[j].0@);
                    }
                }
            }
            return (i, false);
        }
        proof {
            if self.entries@[i as int].0@ != k@ {
                K::lemma_total(self.entries@[i as int].0@, k@);
            }
        }
        (i, true)
    }

    proof fn lemma_absent(&self, i: int, k: K::V)
        requires
            0 <= i <= self.entries@.len(),
            forall|j: int| 0 <= j < i ==> K::before((#[trigger] self.entries@[j]).0@, k),
            forall|j: int|
                i <= j < self.entries@.len() ==> K::before(k, (#[trigger] self.entries@[j]).0@),
        ensures
            forall|j: int| 0 <= j < self.entries@.len() ==> (#[trigger] self.entries@[j]).0@ != k,
            !self@.dom().contains(k),
    {
        K::lemma_irreflexive(k);
        assert forall|j: int| 0 <= j < self.entries@.len() implies (#[trigger] self.entries@[j]).0@
            != k by {
            if j < i {
                assert(K::before(self.entries@[j].0@, k));
            } else {
                assert(K::before(k, self.entries@[j].0@));
            }
        }
        lemma_map_lacks(self.entries@, k);
    }

    /// What `k` maps to.
    pub fn get(&self, k: &K) -> (r: Option<&V>)
        requires
            self.wf(),
        ensures
            match r {
                Some(v) => self@.dom().contains(k@) && *v == self@[k@],
                None => !self@.dom().contains(k@),
            },
    {
        let (i, found) = self.place(k);
        if found {
            proof {
                lemma_map_has(self.entries@, i as int);
            }
            Some(&self.entries[i].1)
        } else {
            proof {
                self.lemma_absent(i as int, k@);
            }
            None
        }
    }

    /// Maps `k` to `v`, in place of what it mapped to.
    pub fn insert(&mut self, k: K, v: V)
        requires
            old(self).wf(),
        ensures
            final(self).wf(),
            final(self)@ == old(self)@.insert(k@, v),
    {
        let (i, found) = self.place(&k);
        let ghost before = self.entries@;
        if found {
            proof {
                lemma_map_update(before, i as int, (k, v));
            }
            self.entries.set(i, (k, v));
            assert(self.entries@ == before.update(i as int, (k, v)));
        } else {
            proof {
                self.lemma_absent(i as int, k@);
                lemma_map_insert(before, i as int, (k, v));
            }
            self.entries.insert(i, (k, v));
            assert(self.entries@ == before.insert(i as int, (k, v)));
        }
    }

    /// Removes what `k` maps to and hands it out.
    pub fn take(&mut self, k: &K) -> (r: Option<V>)
        requires
            old(self).wf(),
        ensures
            final(self).wf(),
            match r {
                Some(v) => old(self)@.dom().contains(k@) && v == old(self)@[k@] && final(self)@
                    == old(self)@.remove(k@),
                None => !old(self)@.dom().contains(k@) && final(self)@ == old(self)@,
            },
    {
        let (i, found) = self.place(k);
        let ghost before = self.entries@;
        if found {
            proof {
                lemma_map_has(before, i as int);
                lemma_map_remove(before, i as int);
            }
            let (_, v) = self.entries.remove(i);
            assert(self.entries@ == before.remove(i as int));
            Some(v)
        } else {
            proof {
                self.lemma_absent(i as int, k@);
            }
            None
        }
    }

    /// Maps `k` to `v` unless it maps to something already.
    pub fn insert_if_absent(&mut self, k: K, v: V)
        requires
            old(self).wf(),
        ensures
            final(self).wf(),
            final(self)@ == (if old(self)@.dom().contains(k@) {
                old(self)@
            } else {
                old(self)@.insert(k@, v)
            }),
    {
        if self.get(&k).is_none() {
            self.insert(k, v);
        }
    }
}

} // verus!
