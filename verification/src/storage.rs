//! An ordered collection of values keyed by recyclable identifiers.

use crate::entries::SortedEntries;
use crate::sorted::{
    ascending, insertion_point, lemma_insert_at_insertion_point, lemma_insertion_point,
    lemma_remove_keeps_ascending,
    lemma_strictly_ascending_no_duplicates, search_result, strictly_ascending,
};
use crate::utils::{IdPool, IdPoolModel, InstanceId};
use vstd::prelude::*;

verus! {

/// Mathematical model of a [`Storage`].
pub struct StorageModel<T> {
    /// The state of the identifier pool.
    pub pool: IdPoolModel,
    /// The identifiers of the live entries, in storage order.
    pub ids: Seq<u32>,
    /// The values of the live entries; `values[i]` belongs to `ids[i]`.
    pub values: Seq<T>,
}

/// One operation on a storage.
pub enum StorageOp<T> {
    /// Store the value under a fresh identifier.
    Create { value: T },
    /// Delete the entry of the identifier.
    Delete { id: u32 },
}

impl<T> StorageModel<T> {
    /// The storage without entries, whose pool has issued nothing.
    pub open spec fn empty() -> Self {
        StorageModel {
            pool: IdPoolModel { current: 0, available: Seq::empty() },
            ids: Seq::empty(),
            values: Seq::empty(),
        }
    }

    /// The live identifiers are strictly ascending, each has one value, and
    /// they are exactly the identifiers that the pool has outstanding.
    pub open spec fn wf(self) -> bool {
        &&& strictly_ascending(self.ids)
        &&& self.values.len() == self.ids.len()
        &&& self.pool.wf()
        &&& forall|id: u32| self.pool.is_live(id) <==> self.ids.contains(id)
    }

    /// The storage after `value` was stored under the next identifier of
    /// the pool, at the place that keeps the identifiers sorted.
    pub open spec fn create(self, value: T) -> Self {
        let id = self.pool.next_id();
        let at = insertion_point(self.ids, id);
        StorageModel {
            pool: self.pool.after_issue(),
            ids: self.ids.insert(at, id),
            values: self.values.insert(at, value),
        }
    }

    /// The storage after the entry of the live identifier `id` was deleted
    /// and the identifier given back.
    pub open spec fn delete(self, id: u32) -> Self {
        let at = self.ids.index_of(id);
        StorageModel {
            pool: self.pool.after_free(id),
            ids: self.ids.remove(at),
            values: self.values.remove(at),
        }
    }

    /// Whether the operation is allowed: an identifier must be left to
    /// create an entry, and only a live entry is deleted.
    pub open spec fn allows(self, op: StorageOp<T>) -> bool {
        match op {
            StorageOp::Create { value } => self.ids.len() < u32::MAX,
            StorageOp::Delete { id } => self.ids.contains(id),
        }
    }

    /// The storage after the operation.
    pub open spec fn apply(self, op: StorageOp<T>) -> Self {
        match op {
            StorageOp::Create { value } => self.create(value),
            StorageOp::Delete { id } => self.delete(id),
        }
    }

    /// The storage after the first `n` of the operations, begun empty.
    pub open spec fn run(ops: Seq<StorageOp<T>>, n: nat) -> Self
        decreases n,
    {
        if n == 0 {
            Self::empty()
        } else {
            Self::run(ops, (n - 1) as nat).apply(ops[n - 1])
        }
    }

    /// Whether each of the first `n` operations is allowed when its turn
    /// comes.
    pub open spec fn allowed(ops: Seq<StorageOp<T>>, n: nat) -> bool
        decreases n,
    {
        n == 0 || (Self::allowed(ops, (n - 1) as nat) && Self::run(ops, (n - 1) as nat).allows(
            ops[n - 1],
        ))
    }

    /// Creating an entry keeps the storage well-formed.
    pub proof fn lemma_create_wf(self, value: T)
        requires
            self.wf(),
            self.ids.len() < u32::MAX,
        ensures
            self.create(value).wf(),
            !self.ids.contains(self.pool.next_id()),
            forall|x: u32|
                self.create(value).ids.contains(x) <==> (self.ids.contains(x) || x
                    == self.pool.next_id()),
    {
        let id = self.pool.next_id();
        let post = self.create(value);
        lemma_strictly_ascending_no_duplicates(self.ids);
        self.pool.lemma_can_issue(self.ids);
        self.pool.lemma_issue();
        assert(!self.ids.contains(id));
        lemma_insert_at_insertion_point(self.ids, id);
        lemma_insertion_point(self.ids, id);
        assert forall|x: u32| post.pool.is_live(x) <==> post.ids.contains(x) by {
            assert(self.pool.is_live(x) <==> self.ids.contains(x));
        }
    }

    /// Deleting a live entry keeps the storage well-formed.
    pub proof fn lemma_delete_wf(self, id: u32)
        requires
            self.wf(),
            self.ids.contains(id),
        ensures
            self.delete(id).wf(),
            forall|x: u32| self.delete(id).ids.contains(x) <==> (self.ids.contains(x) && x != id),
    {
        let post = self.delete(id);
        let at = self.ids.index_of(id);
        lemma_remove_keeps_ascending(self.ids, at);
        self.pool.lemma_free(id);
        assert forall|x: u32| post.pool.is_live(x) <==> post.ids.contains(x) by {
            assert(self.pool.is_live(x) <==> self.ids.contains(x));
        }
    }

    /// Whatever entries are created and deleted, as long as only live
    /// entries are deleted: the live identifiers are always strictly
    /// ascending, so sorted and free of duplicates, and they are exactly
    /// the identifiers that the pool has outstanding.
    pub proof fn lemma_run_wf(ops: Seq<StorageOp<T>>, n: nat)
        requires
            n <= ops.len(),
            Self::allowed(ops, n),
        ensures
            Self::run(ops, n).wf(),
            ascending(Self::run(ops, n).ids),
            Self::run(ops, n).ids.no_duplicates(),
            forall|id: u32|
                Self::run(ops, n).ids.contains(id) <==> Self::run(ops, n).pool.is_live(id),
            forall|id: u32, r: Result<usize, usize>|
                search_result(Self::run(ops, n).ids, id, r) ==> (r.is_ok() <==> Self::run(
                    ops,
                    n,
                ).ids.contains(id)),
        decreases n,
    {
        if n > 0 {
            let before = Self::run(ops, (n - 1) as nat);
            Self::lemma_run_wf(ops, (n - 1) as nat);
            match ops[n - 1] {
                StorageOp::Create { value } => {
                    before.lemma_create_wf(value);
                },
                StorageOp::Delete { id } => {
                    before.lemma_delete_wf(id);
                },
            }
        }
        let ids = Self::run(ops, n).ids;
        lemma_strictly_ascending_no_duplicates(ids);
        assert forall|id: u32, r: Result<usize, usize>| search_result(ids, id, r) implies (r.is_ok()
            <==> ids.contains(id)) by {
            match r {
                Ok(i) => {},
                Err(i) => {
                    if ids.contains(id) {
                        let k = choose|k: int| 0 <= k < ids.len() && ids[k] == id;
                        assert(k < i || i <= k);
                    }
                },
            }
        }
    }
}

/// Values keyed by identifiers of an owned [`IdPool`]. The identifiers of
/// the live entries are kept sorted, so that an entry is found by binary
/// search.
pub struct Storage<T> {
    pool: IdPool,
    entries: SortedEntries<T>,
}

impl<T> Storage<T> {
    /// The identifiers of the live entries, in storage order.
    pub closed spec fn ids(&self) -> Seq<u32> {
        self.entries.keys()
    }

    /// The values of the live entries; `values()[i]` belongs to `ids()[i]`.
    pub closed spec fn values(&self) -> Seq<T> {
        self.entries.values()
    }

    /// The state of the identifier pool.
    pub closed spec fn pool(&self) -> IdPoolModel {
        self.pool@
    }

    /// The storage as mathematical data.
    pub open spec fn model(&self) -> StorageModel<T> {
        StorageModel { pool: self.pool(), ids: self.ids(), values: self.values() }
    }

    /// The live identifiers are strictly ascending, each has one value, and
    /// they are exactly the identifiers that the pool has outstanding.
    pub open spec fn wf(&self) -> bool {
        self.model().wf()
    }

    /// Whether `id` denotes a live entry.
    pub open spec fn contains(&self, id: u32) -> bool {
        self.ids().contains(id)
    }

    /// The value stored under the live identifier `id`.
    pub open spec fn value_of(&self, id: u32) -> T
        recommends
            self.contains(id),
    {
        self.values()[self.ids().index_of(id)]
    }

    /// The storage as a map from live identifier to value.
    pub open spec fn view(&self) -> Map<u32, T> {
        Map::new(|id: u32| self.contains(id), |id: u32| self.value_of(id))
    }

    /// In every well-formed storage the live identifiers are ascending and
    /// free of duplicates, and an identifier is found exactly when the pool
    /// has it outstanding.
    pub proof fn lemma_live_ids_sorted_and_unique(&self)
        requires
            self.wf(),
        ensures
            ascending(self.ids()),
            strictly_ascending(self.ids()),
            self.ids().no_duplicates(),
            self@.dom().finite(),
            self@.dom().len() == self.ids().len(),
            forall|id: u32| self@.dom().contains(id) <==> self.ids().contains(id),
            forall|id: u32| self@.dom().contains(id) <==> self.pool().is_live(id),
            forall|id: u32, r: Result<usize, usize>|
                search_result(self.ids(), id, r) ==> (r.is_ok() <==> self@.dom().contains(id)),
    {
        self.entries.lemma_keys();
        assert(self@ =~= self.entries@);
        assert forall|id: u32, r: Result<usize, usize>|
            search_result(self.ids(), id, r) implies (r.is_ok() <==> self@.dom().contains(
            id,
        )) by {
            match r {
                Ok(i) => {},
                Err(i) => {
                    if self.ids().contains(id) {
                        let k = choose|k: int| 0 <= k < self.ids().len() && self.ids()[k] == id;
                        assert(k < i || i <= k);
                    }
                },
            }
        }
    }

    /// A storage with fewer entries than there are identifiers can issue one.
    pub proof fn lemma_can_issue(&self)
        requires
            self.wf(),
            self.ids().len() < u32::MAX,
        ensures
            self.pool().can_issue(),
    {
        lemma_strictly_ascending_no_duplicates(self.ids());
        self.pool().lemma_can_issue(self.ids());
    }

    pub fn new() -> (s: Self)
        ensures
            s.wf(),
            s.model() == StorageModel::<T>::empty(),
            s.ids() == Seq::<u32>::empty(),
            s@ == Map::<u32, T>::empty(),
            s.pool().current == 0,
            s.pool().available == Seq::<u32>::empty(),
    {
        let s = Storage { pool: IdPool::new(), entries: SortedEntries::new() };
        assert(s@ =~= Map::<u32, T>::empty());
        assert(s.values() =~= Seq::<T>::empty());
        assert(s.pool() == StorageModel::<T>::empty().pool);
        s
    }

    /// The number of live entries.
    pub fn len(&self) -> (n: usize)
        requires
            self.wf(),
        ensures
            n == self.ids().len(),
    {
        self.entries.len()
    }

    /// The identifiers of the live entries in ascending order.
    pub fn live_ids(&self) -> (ids: Vec<InstanceId>)
        requires
            self.wf(),
        ensures
            ids@.len() == self.ids().len(),
            forall|i: int| 0 <= i < ids@.len() ==> (#[trigger] ids@[i]).0 == self.ids()[i],
    {
        let n = self.entries.len();
        let mut ids: Vec<InstanceId> = Vec::new();
        let mut i: usize = 0;
        while i < n
            invariant
                self.wf(),
                0 <= i <= n,
                n == self.ids().len(),
                ids@.len() == i,
                forall|j: int| 0 <= j < i ==> (#[trigger] ids@[j]).0 == self.ids()[j],
            decreases n - i,
        {
            ids.push(InstanceId(self.entries.key_at(i)));
            i += 1;
        }
        ids
    }

    /// Binary search for `id` among the live identifiers: `Ok` with the
    /// position of the entry, or `Err` with the position it would take.
    pub fn find_by_id(&self, id: InstanceId) -> (r: Result<usize, usize>)
        requires
            self.wf(),
        ensures
            search_result(self.ids(), id.0, r),
            r.is_ok() <==> self.contains(id.0),
            r matches Ok(i) ==> self.ids().index_of(id.0) == i,
    {
        self.entries.find(id.0)
    }

    /// Whether `id` denotes a live entry.
    pub fn is_live(&self, id: InstanceId) -> (b: bool)
        requires
            self.wf(),
        ensures
            b == self.contains(id.0),
    {
        self.find_by_id(id).is_ok()
    }

    /// Stores `value` under a fresh identifier and returns the identifier.
    pub fn create(&mut self, value: T) -> (id: InstanceId)
        requires
            old(self).wf(),
            old(self).ids().len() < u32::MAX,
        ensures
            final(self).wf(),
            final(self).model() == old(self).model().create(value),
            id.0 == old(self).pool().next_id(),
            !old(self).contains(id.0),
            final(self).contains(id.0),
            final(self).pool() == old(self).pool().after_issue(),
            final(self)@ == old(self)@.insert(id.0, value),
            final(self).ids().len() == old(self).ids().len() + 1,
            forall|x: u32| final(self).contains(x) <==> (old(self).contains(x) || x == id.0),
    {
        proof {
            self.lemma_can_issue();
            self.model().lemma_create_wf(value);
        }
        let ghost pre = *self;
        let id = self.pool.get_next();
        self.entries.insert(id.0, value);
        proof {
            assert(self@ =~= self.entries@);
            assert(pre@ =~= pre.entries@);
        }
        id
    }

    /// Removes the entry of the live identifier `id`, returns its value and
    /// gives the identifier back to the pool.
    pub fn delete(&mut self, id: InstanceId) -> (value: T)
        requires
            old(self).wf(),
            old(self).contains(id.0),
        ensures
            final(self).wf(),
            final(self).model() == old(self).model().delete(id.0),
            value == old(self).value_of(id.0),
            value == old(self)@[id.0],
            !final(self).contains(id.0),
            final(self).pool() == old(self).pool().after_free(id.0),
            final(self)@ == old(self)@.remove(id.0),
            final(self).ids().len() == old(self).ids().len() - 1,
            forall|x: u32| final(self).contains(x) <==> (old(self).contains(x) && x != id.0),
    {
        proof {
            self.model().lemma_delete_wf(id.0);
        }
        let ghost pre = *self;
        let removed = self.entries.remove(id.0);
        self.pool.free(id);
        proof {
            assert(self@ =~= self.entries@);
            assert(pre@ =~= pre.entries@);
        }
        match removed {
            Some(value) => value,
            None => vstd::pervasive::unreached(),
        }
    }

    /// The value stored under `id`, if `id` is live.
    pub fn get(&self, id: InstanceId) -> (r: Option<&T>)
        requires
            self.wf(),
        ensures
            r.is_some() <==> self.contains(id.0),
            r matches Some(v) ==> *v == self.value_of(id.0) && *v == self@[id.0],
    {
        self.entries.get(id.0)
    }

    /// Mutable access to the value stored under `id`, if `id` is live. The
    /// identifiers and every other value stay as they are.
    pub fn get_mut(&mut self, id: InstanceId) -> (r: Option<&mut T>)
        requires
            old(self).wf(),
        ensures
            r.is_some() <==> old(self).contains(id.0),
            r matches Some(v) ==> {
                &&& *v == old(self).value_of(id.0)
                &&& final(self).wf()
                &&& final(self).ids() == old(self).ids()
                &&& final(self).pool() == old(self).pool()
                &&& final(self)@ == old(self)@.insert(id.0, *final(v))
            },
            r is None ==> *final(self) == *old(self),
    {
        self.entries.get_mut(id.0)
    }
}

} // verus!
