//! A table of values keyed by identifiers and kept in ascending key order.

use crate::sorted::{
    ascending, insertion_point, lemma_insertion_point_unique, lemma_remove_keeps_ascending,
    lemma_strictly_ascending_no_duplicates, search_result, sorted_get, sorted_insert,
    sorted_items, sorted_new, sorted_remove_index, sorted_search, strictly_ascending,
};
use sorted_vec::SortedVec;
use vstd::prelude::*;

verus! {

/// Values keyed by `u32` identifiers. The keys are kept sorted, so that an
/// entry is found by binary search; a key occurs at most once.
pub struct SortedEntries<T> {
    keys: SortedVec<u32>,
    values: Vec<T>,
}

impl<T> SortedEntries<T> {
    /// The keys in storage order.
    pub closed spec fn keys(&self) -> Seq<u32> {
        sorted_items(self.keys)
    }

    /// The values in storage order; `values()[i]` belongs to `keys()[i]`.
    pub closed spec fn values(&self) -> Seq<T> {
        self.values@
    }

    /// The keys are strictly ascending and each has one value.
    pub open spec fn wf(&self) -> bool {
        &&& strictly_ascending(self.keys())
        &&& self.values().len() == self.keys().len()
    }

    /// Whether `key` has an entry.
    pub open spec fn contains(&self, key: u32) -> bool {
        self.keys().contains(key)
    }

    /// The value stored under `key`.
    pub open spec fn value_of(&self, key: u32) -> T
        recommends
            self.contains(key),
    {
        self.values()[self.keys().index_of(key)]
    }

    /// The table as a map from key to value.
    pub open spec fn view(&self) -> Map<u32, T> {
        Map::new(|key: u32| self.contains(key), |key: u32| self.value_of(key))
    }

    /// In a well-formed table the position of a key is unique.
    pub proof fn lemma_position(&self, i: int)
        requires
            self.wf(),
            0 <= i < self.keys().len(),
        ensures
            self.contains(self.keys()[i]),
            self.keys().index_of(self.keys()[i]) == i,
            self.value_of(self.keys()[i]) == self.values()[i],
    {
        let s = self.keys();
        lemma_strictly_ascending_no_duplicates(s);
        let k = s.index_of(s[i]);
        assert(s.contains(s[i]));
        assert(0 <= k < s.len() && s[k] == s[i]);
    }

    /// The keys of a well-formed table are the domain of its map, once each.
    pub proof fn lemma_keys(&self)
        requires
            self.wf(),
        ensures
            ascending(self.keys()),
            self.keys().no_duplicates(),
            self@.dom() == self.keys().to_set(),
            self@.dom().finite(),
            self@.dom().len() == self.keys().len(),
    {
        lemma_strictly_ascending_no_duplicates(self.keys());
        self.keys().unique_seq_to_set();
        vstd::seq_lib::seq_to_set_is_finite(self.keys());
        assert(self@.dom() =~= self.keys().to_set());
    }

    pub fn new() -> (t: Self)
        ensures
            t.wf(),
            t.keys() == Seq::<u32>::empty(),
            t@ == Map::<u32, T>::empty(),
    {
        let t = SortedEntries { keys: sorted_new(), values: Vec::new() };
        assert(t@ =~= Map::<u32, T>::empty());
        t
    }

    /// The number of entries.
    pub fn len(&self) -> (n: usize)
        requires
            self.wf(),
        ensures
            n == self.keys().len(),
    {
        self.values.len()
    }

    /// The key at position `index`.
    pub fn key_at(&self, index: usize) -> (key: u32)
        requires
            self.wf(),
            index < self.keys().len(),
        ensures
            key == self.keys()[index as int],
    {
        sorted_get(&self.keys, index)
    }

    /// The value at position `index`.
    pub fn value_at(&self, index: usize) -> (value: &T)
        requires
            self.wf(),
            index < self.keys().len(),
        ensures
            *value == self.values()[index as int],
            *value == self.value_of(self.keys()[index as int]),
    {
        proof {
            self.lemma_position(index as int);
        }
        &self.values[index]
    }

    /// Binary search for `key`: `Ok` with the position of its entry, or
    /// `Err` with the position that the entry would take.
    pub fn find(&self, key: u32) -> (r: Result<usize, usize>)
        requires
            self.wf(),
        ensures
            search_result(self.keys(), key, r),
            r.is_ok() <==> self.contains(key),
            r matches Ok(i) ==> self.keys().index_of(key) == i,
    {
        proof {
            lemma_strictly_ascending_no_duplicates(self.keys());
        }
        let r = sorted_search(&self.keys, key);
        proof {
            match r {
                Ok(i) => {
                    self.lemma_position(i as int);
                },
                Err(i) => {
                    if self.keys().contains(key) {
                        let k = choose|k: int| 0 <= k < self.keys().len() && self.keys()[k] == key;
                        assert(k < i || i <= k);
                    }
                },
            }
        }
        r
    }

    /// Adds an entry for a key that has none.
    pub fn insert(&mut self, key: u32, value: T)
        requires
            old(self).wf(),
            !old(self).contains(key),
        ensures
            final(self).wf(),
            final(self).contains(key),
            final(self)@ == old(self)@.insert(key, value),
            final(self).keys().len() == old(self).keys().len() + 1,
            final(self).keys() == old(self).keys().insert(
                insertion_point(old(self).keys(), key),
                key,
            ),
            final(self).values() == old(self).values().insert(
                insertion_point(old(self).keys(), key),
                value,
            ),
            forall|x: u32| final(self).contains(x) <==> (old(self).contains(x) || x == key),
    {
        proof {
            lemma_strictly_ascending_no_duplicates(self.keys());
        }
        let ghost pre = *self;
        let idx = sorted_insert(&mut self.keys, key);
        self.values.insert(idx, value);
        proof {
            let a = pre.keys();
            let b = self.keys();
            let k = idx as int;
            assert(b == a.insert(k, key));
            assert(ascending(b));
            assert forall|i: int, j: int| 0 <= i < j < b.len() implies b[i] < b[j] by {
                assert(b[i] <= b[j]);
                if b[i] == b[j] {
                    if i == k {
                        assert(b[j] == a[j - 1]);
                    } else if j == k {
                        assert(b[i] == a[i]);
                    } else {
                        let i0 = if i < k { i } else { i - 1 };
                        let j0 = if j < k { j } else { j - 1 };
                        assert(b[i] == a[i0] && b[j] == a[j0]);
                        assert(a[i0] < a[j0]);
                    }
                }
            }
            assert forall|x: u32| b.contains(x) <==> (a.contains(x) || x == key) by {
                assert(b[k] == key);
                if a.contains(x) {
                    let i0 = choose|i: int| 0 <= i < a.len() && a[i] == x;
                    let i1 = if i0 < k { i0 } else { i0 + 1 };
                    assert(b[i1] == x);
                }
                if b.contains(x) && x != key {
                    let i1 = choose|i: int| 0 <= i < b.len() && b[i] == x;
                    let i0 = if i1 < k { i1 } else { i1 - 1 };
                    assert(a[i0] == x);
                }
            }
            assert(self.wf());
            assert(insertion_point(a, key) == k) by {
                assert forall|i: int| 0 <= i < k implies a[i] < key by {
                    assert(b[i] < b[k]);
                }
                assert forall|i: int| k <= i < a.len() implies key <= a[i] by {
                    assert(b[k] < b[i + 1]);
                }
                lemma_insertion_point_unique(a, key, k);
            }
            assert(self@ =~= pre@.insert(key, value)) by {
                assert forall|x: u32| self.contains(x) implies #[trigger] self.value_of(x)
                    == pre@.insert(key, value)[x] by {
                    let i1 = choose|i: int| 0 <= i < b.len() && b[i] == x;
                    self.lemma_position(i1);
                    if x != key {
                        let i0 = if i1 < k { i1 } else { i1 - 1 };
                        assert(a[i0] == x);
                        pre.lemma_position(i0);
                    }
                }
            }
        }
    }

    /// Removes the entry of `key` and returns its value, if there is one.
    pub fn remove(&mut self, key: u32) -> (r: Option<T>)
        requires
            old(self).wf(),
        ensures
            final(self).wf(),
            r.is_some() <==> old(self).contains(key),
            r matches Some(value) ==> value == old(self).value_of(key) && value == old(self)@[key],
            !final(self).contains(key),
            final(self)@ == old(self)@.remove(key),
            r is None ==> *final(self) == *old(self),
            r is Some ==> final(self).keys().len() == old(self).keys().len() - 1,
            r is Some ==> final(self).keys() == old(self).keys().remove(
                old(self).keys().index_of(key),
            ),
            r is Some ==> final(self).values() == old(self).values().remove(
                old(self).keys().index_of(key),
            ),
            forall|x: u32| final(self).contains(x) <==> (old(self).contains(x) && x != key),
    {
        let ghost pre = *self;
        let idx = match self.find(key) {
            Ok(i) => i,
            Err(_) => {
                assert(self@ =~= pre@.remove(key));
                return None;
            },
        };
        let _ = sorted_remove_index(&mut self.keys, idx);
        let value = self.values.remove(idx);
        proof {
            let a = pre.keys();
            let b = self.keys();
            let k = idx as int;
            lemma_strictly_ascending_no_duplicates(a);
            pre.lemma_position(k);
            assert(b == a.remove(k));
            lemma_remove_keeps_ascending(a, k);
            assert(self.wf());
            assert(self@ =~= pre@.remove(key)) by {
                assert forall|x: u32| self.contains(x) implies #[trigger] self.value_of(x)
                    == pre.value_of(x) by {
                    let i1 = choose|i: int| 0 <= i < b.len() && b[i] == x;
                    self.lemma_position(i1);
                    let i0 = if i1 < k { i1 } else { i1 + 1 };
                    assert(a[i0] == x);
                    pre.lemma_position(i0);
                }
            }
        }
        Some(value)
    }

    /// The value stored under `key`, if there is one.
    pub fn get(&self, key: u32) -> (r: Option<&T>)
        requires
            self.wf(),
        ensures
            r.is_some() <==> self.contains(key),
            r matches Some(v) ==> *v == self.value_of(key) && *v == self@[key],
    {
        match self.find(key) {
            Ok(i) => Some(&self.values[i]),
            Err(_) => None,
        }
    }

    /// Mutable access to the value stored under `key`, if there is one.
    /// The keys and every other value stay as they are.
    pub fn get_mut(&mut self, key: u32) -> (r: Option<&mut T>)
        requires
            old(self).wf(),
        ensures
            r.is_some() <==> old(self).contains(key),
            r matches Some(v) ==> {
                &&& *v == old(self).value_of(key)
                &&& final(self).wf()
                &&& final(self).keys() == old(self).keys()
                &&& final(self).values() == old(self).values().update(
                    old(self).keys().index_of(key),
                    *final(v),
                )
                &&& final(self)@ == old(self)@.insert(key, *final(v))
            },
            r is None ==> *final(self) == *old(self),
    {
        match self.find(key) {
            Ok(i) => Some(&mut self.values[i]),
            Err(_) => None,
        }
    }
}

} // verus!
