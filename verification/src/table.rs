//! A keyed table: at most one value per key, kept in insertion order.

use vstd::prelude::*;

verus! {

/// Keys that can be compared by their views.
pub trait TableKey: View + Sized {
    fn same_key(&self, other: &Self) -> (r: bool)
        ensures
            r == (self@ == other@);
}

impl TableKey for u128 {
    fn same_key(&self, other: &u128) -> (r: bool) {
        *self == *other
    }
}

impl TableKey for String {
    fn same_key(&self, other: &String) -> (r: bool) {
        *self == *other
    }
}

/// Entries `(key, value)`, one per key.
pub struct Table<K, V> {
    entries: Vec<(K, V)>,
}

impl<K: TableKey, V> Table<K, V> {
    /// The keys (by view), in order.
    pub closed spec fn keys(self) -> Seq<K::V> {
        self.entries@.map_values(|e: (K, V)| e.0@)
    }

    /// The values, in the order of their keys.
    pub closed spec fn vals(self) -> Seq<V> {
        self.entries@.map_values(|e: (K, V)| e.1)
    }

    /// No key occurs twice.
    pub open spec fn wf(self) -> bool {
        &&& self.keys().no_duplicates()
        &&& self.keys().len() == self.vals().len()
    }

    /// The table as a map from key to value.
    pub open spec fn map(self) -> Map<K::V, V> {
        Map::new(
            |k: K::V| self.keys().contains(k),
            |k: K::V| self.vals()[self.keys().index_of(k)],
        )
    }

    /// A table with no entries.
    pub fn new() -> (r: Self)
        ensures
            r.wf(),
            r.map() == Map::<K::V, V>::empty(),
            r.vals().len() == 0,
    {
        let r = Table { entries: Vec::new() };
        assert(r.map() =~= Map::<K::V, V>::empty());
        r
    }

    /// Removes every entry.
    pub fn clear(&mut self)
        ensures
            final(self).wf(),
            final(self).map() == Map::<K::V, V>::empty(),
            final(self).vals().len() == 0,
    {
        self.entries.clear();
        assert(self.map() =~= Map::<K::V, V>::empty());
    }

    /// Number of entries.
    pub fn len(&self) -> (r: usize)
        ensures
            r == self.vals().len(),
            r == self.keys().len(),
    {
        self.entries.len()
    }

    /// Where `k` stands, if it is present.
    pub fn position(&self, k: &K) -> (r: Option<usize>)
        requires
            self.wf(),
        ensures
            r is None <==> !self.map().contains_key(k@),
            r matches Some(i) ==> i < self.keys().len() && self.keys()[i as int] == k@,
    {
        let n = self.entries.len();
        let mut i: usize = 0;
        while i < n
            invariant
                n == self.entries@.len(),
                i <= n,
                forall|j: int| 0 <= j < i ==> self.keys()[j] != k@,
            decreases n - i,
        {
            if self.entries[i].0.same_key(k) {
                assert(self.keys()[i as int] == k@);
                return Some(i);
            }
            i = i + 1;
        }
        assert(!self.keys().contains(k@));
        None
    }

    /// The key and value at position `i`.
    pub fn entry(&self, i: usize) -> (r: (&K, &V))
        requires
            i < self.vals().len(),
        ensures
            r.0@ == self.keys()[i as int],
            *r.1 == self.vals()[i as int],
    {
        let e = &self.entries[i];
        (&e.0, &e.1)
    }

    /// The value stored under `k`, if any.
    pub fn get(&self, k: &K) -> (r: Option<&V>)
        requires
            self.wf(),
        ensures
            r is Some <==> self.map().contains_key(k@),
            r matches Some(v) ==> *v == self.map()[k@],
    {
        match self.position(k) {
            Some(i) => {
                proof {
                    self.lemma_index_of(i as int);
                }
                Some(&self.entries[i].1)
            },
            None => None,
        }
    }

    /// Whether `k` is present.
    pub fn contains_key(&self, k: &K) -> (r: bool)
        requires
            self.wf(),
        ensures
            r == self.map().contains_key(k@),
    {
        self.position(k).is_some()
    }

    /// Stores `v` under `k`; an entry already under `k` keeps its position
    /// and has its value replaced (the old value is returned), a new key is
    /// added last.
    pub fn insert(&mut self, k: K, v: V) -> (r: Option<V>)
        requires
            old(self).wf(),
        ensures
            final(self).wf(),
            final(self).map() == old(self).map().insert(k@, v),
            r is Some <==> old(self).map().contains_key(k@),
            r matches Some(ov) ==> ov == old(self).map()[k@],
            final(self).vals().len() == old(self).vals().len() + (if r is Some { 0int } else { 1int }),
            r is None ==> final(self).vals() == old(self).vals().push(v),
    {
        match self.position(&k) {
            Some(i) => {
                proof {
                    self.lemma_index_of(i as int);
                }
                let ghost kv = k@;
                let old_entry = self.entries.remove(i);
                self.entries.insert(i, (k, v));
                proof {
                    assert(self.keys() =~= old(self).keys());
                    assert(self.vals() =~= old(self).vals().update(i as int, v));
                    self.lemma_index_of(i as int);
                    assert forall|x: K::V| self.keys().contains(x) && x != kv implies
                        self.vals()[self.keys().index_of(x)] == old(self).vals()[old(self).keys().index_of(x)] by {
                        let j = self.keys().index_of(x);
                        self.lemma_index_of(j);
                    }
                    assert(self.map() =~= old(self).map().insert(kv, v));
                }
                Some(old_entry.1)
            },
            None => {
                let ghost kv = k@;
                self.entries.push((k, v));
                proof {
                    assert(self.keys() =~= old(self).keys().push(kv));
                    assert(self.vals() =~= old(self).vals().push(v));
                    assert(self.keys().no_duplicates());
                    let n = old(self).keys().len() as int;
                    self.lemma_index_of(n);
                    assert forall|x: K::V| #![auto] old(self).keys().contains(x) implies self.keys().contains(x) by {
                        let j = old(self).keys().index_of(x);
                        assert(self.keys()[j] == x);
                    }
                    assert forall|x: K::V| self.keys().contains(x) && x != kv implies
                        old(self).keys().contains(x) &&
                        self.vals()[self.keys().index_of(x)] == old(self).vals()[old(self).keys().index_of(x)] by {
                        let j = self.keys().index_of(x);
                        self.lemma_index_of(j);
                        assert(j < n);
                        assert(old(self).keys()[j] == x);
                        old(self).lemma_index_of(j);
                    }
                    assert(self.map() =~= old(self).map().insert(kv, v));
                }
                None
            },
        }
    }

    /// Removes the entry under `k`, if any, and returns its value; the other
    /// entries keep their order.
    pub fn remove(&mut self, k: &K) -> (r: Option<V>)
        requires
            old(self).wf(),
        ensures
            final(self).wf(),
            final(self).map() == old(self).map().remove(k@),
            r is Some <==> old(self).map().contains_key(k@),
            r matches Some(ov) ==> ov == old(self).map()[k@],
            final(self).vals().len() == old(self).vals().len() - (if r is Some { 1int } else { 0int }),
    {
        match self.position(k) {
            Some(i) => {
                proof {
                    self.lemma_index_of(i as int);
                }
                let e = self.entries.remove(i);
                proof {
                    assert(self.keys() =~= old(self).keys().remove(i as int));
                    assert(self.vals() =~= old(self).vals().remove(i as int));
                    assert forall|a: int, b: int| 0 <= a < b < self.keys().len() implies self.keys()[a] != self.keys()[b] by {
                        let oa = if a < i { a } else { a + 1 };
                        let ob = if b < i { b } else { b + 1 };
                        assert(self.keys()[a] == old(self).keys()[oa]);
                        assert(self.keys()[b] == old(self).keys()[ob]);
                    }
                    assert forall|x: K::V| self.keys().contains(x) implies
                        self.vals()[self.keys().index_of(x)] == old(self).vals()[old(self).keys().index_of(x)] by {
                        let j = self.keys().index_of(x);
                        self.lemma_index_of(j);
                        let oj = if j < i { j } else { j + 1 };
                        assert(old(self).keys()[oj] == x);
                        old(self).lemma_index_of(oj);
                    }
                    assert forall|x: K::V| #![auto] old(self).keys().contains(x) && x != k@ implies self.keys().contains(x) by {
                        let oj = old(self).keys().index_of(x);
                        if oj < i {
                            assert(self.keys()[oj] == x);
                        } else {
                            assert(self.keys()[oj - 1] == x);
                        }
                    }
                    assert(self.map() =~= old(self).map().remove(k@));
                }
                Some(e.1)
            },
            None => {
                assert(self.map() =~= old(self).map().remove(k@));
                None
            },
        }
    }

    /// The table holds as many entries as its map has keys.
    pub proof fn lemma_table_len(self)
        requires
            self.wf(),
        ensures
            self.map().dom().finite(),
            self.map().dom().len() == self.vals().len(),
    {
        assert(self.map().dom() =~= self.keys().to_set());
        self.keys().unique_seq_to_set();
    }

    /// Every value held under a key stands at some position of the table.
    pub proof fn lemma_value_at(self, k: K::V) -> (i: int)
        requires
            self.wf(),
            self.map().contains_key(k),
        ensures
            0 <= i < self.vals().len(),
            self.keys()[i] == k,
            self.vals()[i] == self.map()[k],
    {
        let i = self.keys().index_of(k);
        i
    }

    /// In a table without repeated keys, the position of each key is the
    /// place where it stands.
    pub proof fn lemma_index_of(self, i: int)
        requires
            self.wf(),
            0 <= i < self.keys().len(),
        ensures
            self.keys().contains(self.keys()[i]),
            self.keys().index_of(self.keys()[i]) == i,
            self.map().contains_key(self.keys()[i]),
            self.map()[self.keys()[i]] == self.vals()[i],
    {
        let k = self.keys()[i];
        assert(self.keys().contains(k));
        let j = self.keys().index_of(k);
        assert(self.keys()[j] == k);
    }
}

/// `after` is `before` with one entry more, under the key `k`, which
/// `before` did not hold.
pub open spec fn adds_new<K, V>(before: Map<K, V>, after: Map<K, V>, k: K) -> bool {
    &&& !before.contains_key(k)
    &&& after == before.insert(k, after[k])
}

/// Adding under a new key keeps every entry there was, unchanged, and
/// grows the number of keys by one.
pub proof fn law_adds_new<K, V>(before: Map<K, V>, after: Map<K, V>, k: K)
    requires
        before.dom().finite(),
        adds_new(before, after, k),
    ensures
        after.dom().len() == before.dom().len() + 1,
        after.contains_key(k),
        forall|x: K| #[trigger] before.contains_key(x) ==> after.contains_key(x) && after[x] == before[x] && x != k,
{
}

/// Two additions one after the other use two different keys.
pub proof fn law_successive_keys_differ<K, V>(m0: Map<K, V>, m1: Map<K, V>, m2: Map<K, V>, k1: K, k2: K)
    requires
        adds_new(m0, m1, k1),
        adds_new(m1, m2, k2),
    ensures
        k1 != k2,
        m2.contains_key(k1) && m2[k1] == m1[k1],
{
}

} // verus!
