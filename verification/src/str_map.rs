//! A map from string keys to values, kept as a list of entries in the order
//! in which keys were first inserted.

use crate::text::str_eq;
use vstd::prelude::*;

verus! {

/// A map keyed by strings. No key occurs twice among its entries.
pub struct StrMap<V> {
    entries: Vec<(String, V)>,
}

impl<V> StrMap<V> {
    /// The keys, in entry order.
    pub closed spec fn key_seq(&self) -> Seq<Seq<char>> {
        self.entries@.map_values(|e: (String, V)| e.0@)
    }

    /// Well-formedness: no key occurs twice among the entries.
    pub closed spec fn wf(&self) -> bool {
        self.key_seq().no_duplicates()
    }

    /// The map from keys to values.
    pub closed spec fn map(&self) -> Map<Seq<char>, V> {
        Map::new(
            |k: Seq<char>| self.key_seq().contains(k),
            |k: Seq<char>| self.entries@[self.key_seq().index_of(k)].1,
        )
    }

    proof fn lemma_index_of(&self, j: int)
        requires
            self.key_seq().no_duplicates(),
            0 <= j < self.entries@.len(),
        ensures
            self.key_seq().contains(self.entries@[j].0@),
            self.key_seq().index_of(self.entries@[j].0@) == j,
    {
        let ks = self.key_seq();
        let k = self.entries@[j].0@;
        assert(ks[j] == k);
        let i = ks.index_of(k);
        assert(ks.contains(k));
        assert(ks[i] == k);
    }

    /// Position of key `k` among the entries, if present.
    fn find(&self, k: &str) -> (r: Option<usize>)
        ensures
            match r {
                Some(i) => i < self.entries@.len() && self.key_seq()[i as int] == k@,
                None => !self.key_seq().contains(k@),
            },
    {
        let n = self.entries.len();
        let mut i: usize = 0;
        while i < n
            invariant
                n == self.entries@.len(),
                i <= n,
                forall|j: int| 0 <= j < i ==> self.key_seq()[j] != k@,
            decreases n - i,
        {
            if str_eq(self.entries[i].0.as_str(), k) {
                return Some(i);
            }
            i = i + 1;
        }
        None
    }

    /// The keys, in entry order.
    pub fn keys(&self) -> (v: Vec<String>)
        requires
            self.wf(),
        ensures
            v@.map_values(|s: String| s@) == self.key_seq(),
            self.key_seq().no_duplicates(),
            self.key_seq().to_set() == self.map().dom(),
    {
        let n = self.entries.len();
        let mut v: Vec<String> = Vec::new();
        let mut i: usize = 0;
        while i < n
            invariant
                n == self.entries@.len(),
                i <= n,
                v@.len() == i,
                v@.map_values(|s: String| s@) == self.key_seq().take(i as int),
            decreases n - i,
        {
            let k = self.entries[i].0.clone();
            let ghost prev = v@;
            v.push(k);
            proof {
                assert(k@ == self.key_seq()[i as int]);
                assert forall|j: int| 0 <= j < i + 1 implies v@.map_values(|s: String| s@)[j]
                    == #[trigger] self.key_seq().take(i + 1)[j] by {
                    if j < i {
                        assert(v@[j] == prev[j]);
                        assert(prev.map_values(|s: String| s@)[j] == self.key_seq().take(i as int)[j]);
                    }
                }
                assert(v@.map_values(|s: String| s@) =~= self.key_seq().take(i + 1));
            }
            i = i + 1;
        }
        proof {
            assert(self.key_seq().take(n as int) =~= self.key_seq());
            assert(self.key_seq().to_set() =~= self.map().dom());
        }
        v
    }

    /// The keys, borrowed, in entry order.
    pub fn key_strs(&self) -> (v: Vec<&str>)
        requires
            self.wf(),
        ensures
            v@.map_values(|s: &str| s@) == self.key_seq(),
            self.key_seq().no_duplicates(),
            self.key_seq().to_set() == self.map().dom(),
    {
        let n = self.entries.len();
        let mut v: Vec<&str> = Vec::new();
        let mut i: usize = 0;
        while i < n
            invariant
                n == self.entries@.len(),
                i <= n,
                v@.map_values(|s: &str| s@) == self.key_seq().take(i as int),
            decreases n - i,
        {
            let ghost prev = v@.map_values(|s: &str| s@);
            let k = self.entries[i].0.as_str();
            v.push(k);
            proof {
                assert(k@ == self.key_seq()[i as int]);
                assert(v@.map_values(|s: &str| s@) =~= prev.push(k@));
                assert(self.key_seq().take(i + 1) =~= self.key_seq().take(i as int).push(k@));
            }
            i = i + 1;
        }
        proof {
            assert(self.key_seq().take(n as int) =~= self.key_seq());
            assert(self.key_seq().to_set() =~= self.map().dom());
        }
        v
    }

    /// An empty map.
    pub fn new() -> (m: Self)
        ensures
            m.wf(),
            m.map() == Map::<Seq<char>, V>::empty(),
    {
        let m = StrMap { entries: Vec::new() };
        assert(m.map() =~= Map::<Seq<char>, V>::empty());
        m
    }

    /// Whether the map has no key.
    pub fn is_empty(&self) -> (r: bool)
        requires
            self.wf(),
        ensures
            r == (self.map().dom() =~= Set::<Seq<char>>::empty()),
    {
        proof {
            if self.entries@.len() > 0 {
                self.lemma_index_of(0);
                assert(self.map().dom().contains(self.entries@[0].0@));
            } else {
                assert(self.map().dom() =~= Set::<Seq<char>>::empty());
            }
        }
        self.entries.len() == 0
    }

    /// Number of keys.
    pub fn len(&self) -> (r: usize)
        requires
            self.wf(),
        ensures
            r == self.map().dom().len(),
            self.map().dom().finite(),
    {
        proof {
            self.key_seq().unique_seq_to_set();
            assert(self.map().dom() =~= self.key_seq().to_set());
        }
        self.entries.len()
    }

    /// Whether `k` is a key.
    pub fn contains_key(&self, k: &str) -> (r: bool)
        requires
            self.wf(),
        ensures
            r == self.map().dom().contains(k@),
    {
        self.find(k).is_some()
    }

    /// The value stored under `k`, if any.
    pub fn get(&self, k: &str) -> (r: Option<&V>)
        requires
            self.wf(),
        ensures
            match r {
                Some(v) => self.map().dom().contains(k@) && *v == self.map()[k@],
                None => !self.map().dom().contains(k@),
            },
    {
        match self.find(k) {
            Some(i) => {
                proof {
                    self.lemma_index_of(i as int);
                }
                Some(&self.entries[i].1)
            },
            None => None,
        }
    }

    /// Stores `v` under `k`, returning the value it replaces, if any.
    pub fn insert(&mut self, k: String, v: V) -> (r: Option<V>)
        requires
            old(self).wf(),
        ensures
            final(self).wf(),
            final(self).map() == old(self).map().insert(k@, v),
            match r {
                Some(o) => old(self).map().dom().contains(k@) && o == old(self).map()[k@],
                None => !old(self).map().dom().contains(k@),
            },
    {
        let ghost old_map = self.map();
        match self.find(k.as_str()) {
            Some(i) => {
                proof {
                    self.lemma_index_of(i as int);
                }
                let ghost ks0 = self.key_seq();
                let old_entry = self.entries.remove(i);
                proof {
                    assert(self.key_seq() =~= ks0.remove(i as int));
                    assert forall|a: int, b: int| 0 <= a < b < self.key_seq().len() implies
                        self.key_seq()[a] != self.key_seq()[b] by {
                        let aa = if a < i { a } else { a + 1 };
                        let bb = if b < i { b } else { b + 1 };
                        assert(self.key_seq()[a] == ks0[aa]);
                        assert(self.key_seq()[b] == ks0[bb]);
                    }
                }
                self.entries.insert(i, (k, v));
                proof {
                    let ks = self.key_seq();
                    assert(ks =~= ks0.update(i as int, k@));
                    assert(ks0[i as int] == k@);
                    assert(ks =~= ks0);
                    assert forall|j: int| 0 <= j < ks.len() && j != i implies self.entries@[j]
                        == old(self).entries@[j] by {}
                    assert forall|key: Seq<char>| #![auto] self.map().dom().contains(key) implies
                        self.map()[key] == old_map.insert(k@, v)[key] by {
                        let j = ks.index_of(key);
                        assert(ks.contains(key));
                        self.lemma_index_of(j);
                        old(self).lemma_index_of(j);
                    }
                    assert(self.map() =~= old_map.insert(k@, v));
                }
                Some(old_entry.1)
            },
            None => {
                let ghost ks0 = self.key_seq();
                self.entries.push((k, v));
                proof {
                    let ks = self.key_seq();
                    assert(ks =~= ks0.push(k@));
                    let n = ks0.len() as int;
                    assert forall|key: Seq<char>| #![auto] self.map().dom().contains(key) implies
                        self.map()[key] == old_map.insert(k@, v)[key] by {
                        let j = ks.index_of(key);
                        assert(ks.contains(key));
                        self.lemma_index_of(j);
                        if j < n {
                            old(self).lemma_index_of(j);
                        }
                    }
                    assert forall|key: Seq<char>| old_map.insert(k@, v).dom().contains(key) implies
                        self.map().dom().contains(key) by {
                        if key != k@ {
                            let j = ks0.index_of(key);
                            assert(ks0.contains(key));
                            assert(ks[j] == key);
                        } else {
                            assert(ks[n] == k@);
                        }
                    }
                    assert(self.map() =~= old_map.insert(k@, v));
                }
                None
            },
        }
    }

    /// Removes `k`, returning the value it held, if any.
    pub fn remove(&mut self, k: &str) -> (r: Option<V>)
        requires
            old(self).wf(),
        ensures
            final(self).wf(),
            final(self).map() == old(self).map().remove(k@),
            match r {
                Some(o) => old(self).map().dom().contains(k@) && o == old(self).map()[k@],
                None => !old(self).map().dom().contains(k@),
            },
    {
        let ghost old_map = self.map();
        match self.find(k) {
            Some(i) => {
                proof {
                    self.lemma_index_of(i as int);
                }
                let ghost ks0 = self.key_seq();
                let old_entry = self.entries.remove(i);
                proof {
                    let ks = self.key_seq();
                    assert(ks =~= ks0.remove(i as int));
                    assert forall|a: int, b: int| 0 <= a < b < ks.len() implies ks[a] != ks[b] by {
                        let aa = if a < i { a } else { a + 1 };
                        let bb = if b < i { b } else { b + 1 };
                        assert(ks[a] == ks0[aa]);
                        assert(ks[b] == ks0[bb]);
                    }
                    assert forall|key: Seq<char>| #![auto] self.map().dom().contains(key) implies
                        self.map()[key] == old_map.remove(k@)[key] && key != k@ by {
                        let j = ks.index_of(key);
                        assert(ks.contains(key));
                        self.lemma_index_of(j);
                        let jj = if j < i { j } else { j + 1 };
                        assert(ks[j] == ks0[jj]);
                        assert(self.entries@[j] == old(self).entries@[jj]);
                        old(self).lemma_index_of(jj);
                    }
                    assert forall|key: Seq<char>| old_map.remove(k@).dom().contains(key) implies
                        self.map().dom().contains(key) by {
                        let j = ks0.index_of(key);
                        assert(ks0.contains(key));
                        assert(j != i);
                        let jj = if j < i { j } else { j - 1 };
                        assert(ks[jj] == key);
                    }
                    assert(self.map() =~= old_map.remove(k@));
                }
                Some(old_entry.1)
            },
            None => {
                proof {
                    assert(self.map() =~= old_map.remove(k@));
                }
                None
            },
        }
    }
}

} // verus!
