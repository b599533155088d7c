//! Reference-counted handles to the entries of a resource pool.

use crate::storage::Storage;
use crate::utils::{IdPoolModel, InstanceCounter, InstanceId};
use core::marker::PhantomData;
use vstd::pervasive::unreached;
use vstd::prelude::*;
use vstd::std_specs::cmp::PartialEqSpecImpl;

verus! {

/// A capability for one entry of a [`ResourcePool`]. Handles are equal when
/// they name the same entry. A handle is duplicated and given up through
/// the pool, which counts the handles of every entry.
#[derive(Debug)]
pub struct Handle<T> {
    id: InstanceId,
    marker: PhantomData<T>,
}

impl<T> View for Handle<T> {
    type V = u32;

    closed spec fn view(&self) -> u32 {
        self.id.0
    }
}

impl<T> Handle<T> {
    /// The identifier of the entry that the handle names.
    pub fn id(&self) -> (id: InstanceId)
        ensures
            id.0 == self@,
    {
        self.id
    }
}

impl<T> PartialEq for Handle<T> {
    fn eq(&self, other: &Self) -> (r: bool) {
        self.id.0 == other.id.0
    }
}

impl<T> PartialEqSpecImpl for Handle<T> {
    open spec fn obeys_eq_spec() -> bool {
        true
    }

    open spec fn eq_spec(&self, other: &Self) -> bool {
        self@ == other@
    }
}

/// Mathematical model of a [`ResourcePool`]: the value and the number of
/// handles of every live entry.
pub struct PoolModel<T> {
    pub values: Map<u32, T>,
    pub counts: Map<u32, nat>,
}

impl<T> PoolModel<T> {
    /// Every live entry is counted, and is referred to by a handle.
    pub open spec fn wf(self) -> bool {
        &&& self.counts.dom() == self.values.dom()
        &&& forall|id: u32| self.counts.dom().contains(id) ==> self.counts[id] >= 1
    }

    /// Whether `id` names a live entry.
    pub open spec fn contains(self, id: u32) -> bool {
        self.values.dom().contains(id)
    }

    /// The pool after a new entry got its first handle.
    pub open spec fn insert(self, id: u32, value: T) -> Self {
        PoolModel { values: self.values.insert(id, value), counts: self.counts.insert(id, 1) }
    }

    /// The pool after a handle of `id` was duplicated.
    pub open spec fn acquire(self, id: u32) -> Self {
        PoolModel { values: self.values, counts: self.counts.insert(id, self.counts[id] + 1) }
    }

    /// Whether giving up one handle of `id` deletes the entry.
    pub open spec fn is_last(self, id: u32) -> bool {
        self.counts[id] == 1
    }

    /// The pool after a handle of `id` was given up: the entry is deleted
    /// with its last handle.
    pub open spec fn release(self, id: u32) -> Self {
        if self.is_last(id) {
            PoolModel { values: self.values.remove(id), counts: self.counts.remove(id) }
        } else {
            PoolModel {
                values: self.values,
                counts: self.counts.insert(id, (self.counts[id] - 1) as nat),
            }
        }
    }

    /// The pool after `n` duplications of a handle of `id`.
    pub open spec fn acquire_n(self, id: u32, n: nat) -> Self
        decreases n,
    {
        if n == 0 {
            self
        } else {
            self.acquire(id).acquire_n(id, (n - 1) as nat)
        }
    }

    /// The pool after `n` handles of `id` were given up.
    pub open spec fn release_n(self, id: u32, n: nat) -> Self
        decreases n,
    {
        if n == 0 {
            self
        } else {
            self.release(id).release_n(id, (n - 1) as nat)
        }
    }
}

/// Duplicating a handle `n` times adds `n` to the count of its entry and
/// changes nothing else.
pub proof fn lemma_acquire_n<T>(m: PoolModel<T>, id: u32, n: nat)
    requires
        m.wf(),
        m.contains(id),
    ensures
        m.acquire_n(id, n).wf(),
        m.acquire_n(id, n).values == m.values,
        m.acquire_n(id, n).counts == m.counts.insert(id, m.counts[id] + n),
    decreases n,
{
    if n == 0 {
        assert(m.counts =~= m.counts.insert(id, m.counts[id]));
    } else {
        let m1 = m.acquire(id);
        assert(m1.counts.dom() =~= m.counts.dom());
        lemma_acquire_n(m1, id, (n - 1) as nat);
        assert(m1.counts.insert(id, m1.counts[id] + (n - 1) as nat) =~= m.counts.insert(
            id,
            m.counts[id] + n,
        ));
    }
}

/// Giving up `k` of the `c` handles of an entry leaves the entry alive
/// with `c - k` handles while `k < c`, and deleted once `k == c`.
pub proof fn lemma_release_n<T>(m: PoolModel<T>, id: u32, k: nat)
    requires
        m.wf(),
        m.contains(id),
        k <= m.counts[id],
    ensures
        m.release_n(id, k).wf(),
        k < m.counts[id] ==> m.release_n(id, k).values == m.values && m.release_n(id, k).counts
            == m.counts.insert(id, (m.counts[id] - k) as nat),
        k == m.counts[id] ==> m.release_n(id, k).values == m.values.remove(id) && m.release_n(
            id,
            k,
        ).counts == m.counts.remove(id),
    decreases k,
{
    if k == 0 {
        assert(m.counts =~= m.counts.insert(id, m.counts[id]));
    } else {
        let m1 = m.release(id);
        if m.is_last(id) {
            assert(k == 1);
            assert(m1.release_n(id, 0) == m1);
            assert(m1.counts.dom() =~= m1.values.dom());
        } else {
            assert(m1.counts.dom() =~= m.counts.dom());
            lemma_release_n(m1, id, (k - 1) as nat);
            if k < m.counts[id] {
                assert(m1.counts.insert(id, (m1.counts[id] - (k - 1)) as nat) =~= m.counts.insert(
                    id,
                    (m.counts[id] - k) as nat,
                ));
            } else {
                assert(m1.counts.remove(id) =~= m.counts.remove(id));
            }
        }
    }
}

/// After a handle was duplicated `n` times, the entry stays alive while
/// any of the `n + 1` handles is left, and is deleted with the last one.
pub proof fn lemma_handle_lifetime<T>(m: PoolModel<T>, id: u32, n: nat, k: nat)
    requires
        m.wf(),
        m.contains(id),
        m.counts[id] == 1,
        k <= n + 1,
    ensures
        m.acquire_n(id, n).release_n(id, k).contains(id) <==> k <= n,
        k <= n ==> m.acquire_n(id, n).release_n(id, k).counts[id] == n + 1 - k,
        k == n + 1 ==> m.acquire_n(id, n).release_n(id, k).values == m.values.remove(id),
{
    lemma_acquire_n(m, id, n);
    lemma_release_n(m.acquire_n(id, n), id, k);
}


/// A value together with the number of handles that refer to it.
pub struct Counted<T> {
    pub value: T,
    pub counter: InstanceCounter,
}

/// A reference-counted pool of values. Every entry is created with one
/// handle; it is deleted, and its identifier recycled, when the last of its
/// handles is given up.
pub struct ResourcePool<T> {
    storage: Storage<Counted<T>>,
}

impl<T> View for ResourcePool<T> {
    type V = PoolModel<T>;

    closed spec fn view(&self) -> PoolModel<T> {
        PoolModel {
            values: self.storage@.map_values(|c: Counted<T>| c.value),
            counts: self.storage@.map_values(|c: Counted<T>| c.counter@),
        }
    }
}

impl<T> ResourcePool<T> {
    /// The state of the identifier pool.
    pub closed spec fn ids(&self) -> IdPoolModel {
        self.storage.pool()
    }

    /// The number of live entries.
    pub closed spec fn entry_count(&self) -> nat {
        self.storage.ids().len()
    }

    /// The storage is well-formed and every entry has a handle.
    pub closed spec fn wf(&self) -> bool {
        &&& self.storage.wf()
        &&& self@.wf()
    }

    /// A well-formed pool has a well-formed model, whose live entries are
    /// those whose identifiers are outstanding.
    pub proof fn lemma_wf(&self)
        requires
            self.wf(),
        ensures
            self@.wf(),
            self.ids().wf(),
            forall|id: u32| self@.contains(id) <==> self.ids().is_live(id),
    {
    }

    pub fn new() -> (p: Self)
        ensures
            p.wf(),
            p@.values == Map::<u32, T>::empty(),
            p@.counts == Map::<u32, nat>::empty(),
            p.entry_count() == 0,
            p.ids().current == 0,
            p.ids().available == Seq::<u32>::empty(),
    {
        let p = ResourcePool { storage: Storage::new() };
        assert(p@.values =~= Map::<u32, T>::empty());
        assert(p@.counts =~= Map::<u32, nat>::empty());
        p
    }

    /// The number of live entries.
    pub fn len(&self) -> (n: usize)
        requires
            self.wf(),
        ensures
            n == self.entry_count(),
    {
        self.storage.len()
    }

    /// Stores `value` as a new entry and returns its first handle.
    pub fn create(&mut self, value: T) -> (h: Handle<T>)
        requires
            old(self).wf(),
            old(self).entry_count() < u32::MAX,
        ensures
            final(self).wf(),
            !old(self)@.contains(h@),
            h@ == old(self).ids().next_id(),
            final(self).ids() == old(self).ids().after_issue(),
            final(self)@ == old(self)@.insert(h@, value),
            final(self).entry_count() == old(self).entry_count() + 1,
    {
        let ghost pre = *self;
        let entry = Counted { value, counter: InstanceCounter::new() };
        let id = self.storage.create(entry);
        proof {
            assert(self@.values =~= pre@.values.insert(id.0, value));
            assert(self@.counts =~= pre@.counts.insert(id.0, 1));
            assert(self@.counts.dom() =~= self@.values.dom());
        }
        Handle { id, marker: PhantomData }
    }

    /// Duplicates a handle of a live entry: the count of the entry goes up
    /// by one and the new handle equals the given one.
    pub fn clone_handle(&mut self, h: &Handle<T>) -> (r: Handle<T>)
        requires
            old(self).wf(),
            old(self)@.contains(h@),
            old(self)@.counts[h@] < u32::MAX,
        ensures
            final(self).wf(),
            r@ == h@,
            final(self)@ == old(self)@.acquire(h@),
            final(self).ids() == old(self).ids(),
            final(self).entry_count() == old(self).entry_count(),
    {
        let ghost pre = *self;
        match self.storage.get_mut(h.id) {
            Some(entry) => {
                entry.counter.increment();
            },
            None => unreached(),
        }
        proof {
            assert(self@.values =~= pre@.values);
            assert(self@.counts =~= pre@.counts.insert(h@, pre@.counts[h@] + 1));
            assert(self@.counts.dom() =~= self@.values.dom());
        }
        Handle { id: h.id, marker: PhantomData }
    }

    /// Gives up a handle of a live entry. With the last handle the entry is
    /// deleted, its identifier recycled and its value returned; otherwise
    /// the count of the entry goes down by one.
    pub fn drop_handle(&mut self, h: Handle<T>) -> (r: Option<T>)
        requires
            old(self).wf(),
            old(self)@.contains(h@),
        ensures
            final(self).wf(),
            final(self)@ == old(self)@.release(h@),
            r.is_some() <==> old(self)@.is_last(h@),
            r matches Some(value) ==> value == old(self)@.values[h@],
            final(self).ids() == if old(self)@.is_last(h@) {
                old(self).ids().after_free(h@)
            } else {
                old(self).ids()
            },
            final(self).entry_count() == if old(self)@.is_last(h@) {
                old(self).entry_count() - 1
            } else {
                old(self).entry_count() as int
            },
    {
        let ghost pre = *self;
        let id = h.id;
        let last = match self.storage.get_mut(id) {
            Some(entry) => {
                entry.counter.decrement();
                entry.counter.value() == 0
            },
            None => unreached(),
        };
        let ghost mid = *self;
        proof {
            assert(mid.storage@[id.0].value == pre.storage@[id.0].value);
            assert(mid.storage@[id.0] == mid.storage.value_of(id.0));
        }
        if last {
            let entry = self.storage.delete(id);
            proof {
                assert(self@.values =~= pre@.values.remove(id.0));
                assert(self@.counts =~= pre@.counts.remove(id.0));
                assert(self@.counts.dom() =~= self@.values.dom());
            }
            Some(entry.value)
        } else {
            proof {
                assert(self@.values =~= pre@.values);
                assert(self@.counts =~= pre@.counts.insert(
                    id.0,
                    (pre@.counts[id.0] - 1) as nat,
                ));
                assert(self@.counts.dom() =~= self@.values.dom());
            }
            None
        }
    }

    /// The value of the entry `id`, if it is live.
    pub fn get(&self, id: InstanceId) -> (r: Option<&T>)
        requires
            self.wf(),
        ensures
            r.is_some() <==> self@.contains(id.0),
            r matches Some(v) ==> *v == self@.values[id.0],
    {
        match self.storage.get(id) {
            Some(entry) => Some(&entry.value),
            None => None,
        }
    }

    /// Whether `id` names a live entry.
    pub fn contains(&self, id: InstanceId) -> (b: bool)
        requires
            self.wf(),
        ensures
            b == self@.contains(id.0),
    {
        self.storage.is_live(id)
    }

    /// The number of handles of the entry `id`, if it is live.
    pub fn ref_count(&self, id: InstanceId) -> (r: Option<u32>)
        requires
            self.wf(),
        ensures
            r.is_some() <==> self@.contains(id.0),
            r matches Some(n) ==> n == self@.counts[id.0],
    {
        match self.storage.get(id) {
            Some(entry) => Some(entry.counter.value()),
            None => None,
        }
    }
}

} // verus!
