//! Identifiers, reference counters and the identifier pool.

use vstd::layout::{align_of, size_of};
use vstd::prelude::*;
use vstd::std_specs::convert::FromSpecImpl;

verus! {

/// Bytes that wait to be uploaded to a GPU buffer.
pub type StagingBuffer = Vec<u8>;

/// `std::any::TypeId`, declared as an opaque type.
#[verifier::external_type_specification]
#[verifier::external_body]
pub struct ExAnyTypeId(std::any::TypeId);

/// `std::any::TypeId::of`: the identifier of the type `T`. Nothing is
/// stated of the result.
#[verifier::external_body]
pub(crate) fn type_id_of<T: 'static>() -> std::any::TypeId {
    std::any::TypeId::of::<T>()
}

/// The identity of a Rust type, as a key for per-type tables.
#[derive(Debug, Clone, Copy, PartialEq, Eq, Hash)]
pub struct TypeId(pub std::any::TypeId);

impl TypeId {
    pub fn new<T: 'static>() -> Self {
        Self(type_id_of::<T>())
    }
}

impl From<std::any::TypeId> for TypeId {
    fn from(id: std::any::TypeId) -> (r: Self) {
        Self(id)
    }
}

impl FromSpecImpl<std::any::TypeId> for TypeId {
    open spec fn obeys_from_spec() -> bool {
        true
    }

    open spec fn from_spec(id: std::any::TypeId) -> Self {
        TypeId(id)
    }
}

/// Size, alignment and identity of a Rust type, with a name for
/// diagnostics that the caller chooses.
#[derive(Debug, Clone, Copy, PartialEq, Eq)]
pub struct TypeInfo {
    pub size: usize,
    pub align: usize,
    pub type_id: TypeId,
    pub name: &'static str,
}

impl TypeInfo {
    pub fn new<T: 'static>(name: &'static str) -> (info: Self)
        ensures
            info.size == size_of::<T>(),
            info.align == align_of::<T>(),
            info.name == name,
    {
        Self {
            size: std::mem::size_of::<T>(),
            align: std::mem::align_of::<T>(),
            type_id: TypeId::new::<T>(),
            name,
        }
    }
}

/// Number of handles that refer to one entry. A new counter stands at one,
/// for the handle that is created together with the entry.
#[derive(Debug)]
pub struct InstanceCounter(u32);

impl View for InstanceCounter {
    type V = nat;

    closed spec fn view(&self) -> nat {
        self.0 as nat
    }
}

impl InstanceCounter {
    pub fn new() -> (c: Self)
        ensures
            c@ == 1,
    {
        Self(1)
    }

    pub fn increment(&mut self)
        requires
            old(self)@ < u32::MAX,
        ensures
            final(self)@ == old(self)@ + 1,
    {
        self.0 = self.0 + 1;
    }

    pub fn decrement(&mut self)
        requires
            old(self)@ > 0,
        ensures
            final(self)@ == old(self)@ - 1,
    {
        self.0 = self.0 - 1;
    }

    pub fn value(&self) -> (v: u32)
        ensures
            v == self@,
    {
        self.0
    }
}

/// Identifier of one live entry of a pool. Identifiers are recycled once freed,
/// so a value is only meaningful together with the pool that issued it.
#[derive(Debug, Clone, Copy, PartialEq, Eq, Structural, PartialOrd, Ord, Hash)]
pub struct InstanceId(pub u32);

impl InstanceId {
    pub fn new(val: u32) -> (id: Self)
        ensures
            id.0 == val,
    {
        Self(val)
    }
}

impl From<u32> for InstanceId {
    fn from(value: u32) -> (id: Self) {
        Self::new(value)
    }
}

impl FromSpecImpl<u32> for InstanceId {
    open spec fn obeys_from_spec() -> bool {
        true
    }

    open spec fn from_spec(value: u32) -> Self {
        InstanceId(value)
    }
}

impl Default for InstanceId {
    fn default() -> (id: Self)
        ensures
            id.0 == 0,
    {
        Self(0)
    }
}

/// Mathematical model of an [`IdPool`].
pub struct IdPoolModel {
    /// Every identifier below this bound has been issued at least once.
    pub current: nat,
    /// Freed identifiers, most recently freed last.
    pub available: Seq<u32>,
}

impl IdPoolModel {
    /// An identifier is live when it was issued and has not been freed since.
    pub open spec fn is_live(self, id: u32) -> bool {
        id < self.current && !self.available.contains(id)
    }

    /// The set of live identifiers.
    pub open spec fn live(self) -> Set<u32> {
        Set::new(|id: u32| self.is_live(id))
    }

    /// Freed identifiers were issued before and none is recorded twice.
    pub open spec fn wf(self) -> bool {
        &&& self.current <= u32::MAX
        &&& self.available.no_duplicates()
        &&& forall|i: int| 0 <= i < self.available.len() ==> self.available[i] < self.current
    }

    /// Whether another identifier can be issued without overflowing the counter.
    pub open spec fn can_issue(self) -> bool {
        self.available.len() > 0 || self.current < u32::MAX
    }

    /// The identifier that the next request returns.
    pub open spec fn next_id(self) -> u32 {
        if self.available.len() > 0 {
            self.available.last()
        } else {
            self.current as u32
        }
    }

    /// The pool after the next request.
    pub open spec fn after_issue(self) -> IdPoolModel {
        if self.available.len() > 0 {
            IdPoolModel { current: self.current, available: self.available.drop_last() }
        } else {
            IdPoolModel { current: self.current + 1, available: self.available }
        }
    }

    /// A pool whose live identifiers all occur in a duplicate-free sequence
    /// shorter than the identifier space can issue another identifier.
    pub proof fn lemma_can_issue(self, live_ids: Seq<u32>)
        requires
            self.wf(),
            live_ids.no_duplicates(),
            forall|id: u32| self.is_live(id) ==> live_ids.contains(id),
            live_ids.len() < u32::MAX,
        ensures
            self.can_issue(),
    {
        if !self.can_issue() {
            let n = u32::MAX as int;
            let t = live_ids.map_values(|x: u32| x as int);
            assert(t.no_duplicates()) by {
                assert forall|i: int, j: int| 0 <= i < t.len() && 0 <= j < t.len() && i != j implies t[i]
                    != t[j] by {
                    assert(live_ids[i] != live_ids[j]);
                }
            }
            t.unique_seq_to_set();
            vstd::seq_lib::seq_to_set_is_finite(t);
            vstd::set_lib::lemma_int_range(0, n);
            assert(vstd::set_lib::set_int_range(0, n).subset_of(t.to_set())) by {
                assert forall|v: int| 0 <= v < n implies t.to_set().contains(v) by {
                    let x = v as u32;
                    assert(self.is_live(x));
                    let k = choose|k: int| 0 <= k < live_ids.len() && live_ids[k] == x;
                    assert(t[k] == v);
                }
            }
            vstd::set_lib::lemma_len_subset(vstd::set_lib::set_int_range(0, n), t.to_set());
        }
    }

    /// Issuing makes the next identifier, which was not live, live and
    /// changes no other identifier.
    pub proof fn lemma_issue(self)
        requires
            self.wf(),
            self.can_issue(),
        ensures
            self.after_issue().wf(),
            !self.is_live(self.next_id()),
            forall|x: u32|
                self.after_issue().is_live(x) <==> (self.is_live(x) || x == self.next_id()),
    {
        let id = self.next_id();
        let post = self.after_issue();
        if self.available.len() > 0 {
            assert(self.available[self.available.len() - 1] == id);
            assert forall|x: u32| post.is_live(x) <==> (self.is_live(x) || x == id) by {
                if self.available.contains(x) && x != id {
                    let k = choose|k: int| 0 <= k < self.available.len() && self.available[k] == x;
                    assert(post.available[k] == x);
                }
                if post.available.contains(x) {
                    let k = choose|k: int| 0 <= k < post.available.len() && post.available[k] == x;
                    assert(self.available[k] == x);
                }
            }
            assert(post.available.no_duplicates());
        }
    }

    /// Freeing a live identifier makes it not live and changes no other
    /// identifier.
    pub proof fn lemma_free(self, id: u32)
        requires
            self.wf(),
            self.is_live(id),
        ensures
            self.after_free(id).wf(),
            forall|x: u32| self.after_free(id).is_live(x) <==> (self.is_live(x) && x != id),
    {
        let post = self.after_free(id);
        assert forall|x: u32| post.is_live(x) <==> (self.is_live(x) && x != id) by {
            if self.available.contains(x) {
                let k = choose|k: int| 0 <= k < self.available.len() && self.available[k] == x;
                assert(post.available[k] == x);
            }
            assert(post.available[self.available.len() as int] == id);
        }
    }

    /// An identifier that is given back is the next one issued, and the
    /// pool is then as it was before the identifier was first issued.
    pub proof fn lemma_reissue(self)
        requires
            self.wf(),
            self.can_issue(),
        ensures
            self.after_issue().is_live(self.next_id()),
            self.after_issue().after_free(self.next_id()).next_id() == self.next_id(),
            self.after_issue().after_free(self.next_id()).after_issue() == self.after_issue(),
    {
        let id = self.next_id();
        let issued = self.after_issue();
        let freed = issued.after_free(id);
        assert(freed.available.last() == id);
        assert(freed.available.drop_last() =~= issued.available);
        if self.available.len() > 0 {
            assert(!issued.available.contains(id)) by {
                if issued.available.contains(id) {
                    let k = choose|k: int| 0 <= k < issued.available.len() && issued.available[k] == id;
                    assert(self.available[k] == id);
                    assert(self.available[self.available.len() - 1] == id);
                }
            }
        }
    }

    /// The pool after `id` was given back.
    pub open spec fn after_free(self, id: u32) -> IdPoolModel {
        IdPoolModel { current: self.current, available: self.available.push(id) }
    }
}

/// Issues small integer identifiers and recycles freed ones, last freed first.
#[derive(Debug)]
pub struct IdPool {
    current: u32,
    available: Vec<InstanceId>,
}

impl View for IdPool {
    type V = IdPoolModel;

    closed spec fn view(&self) -> IdPoolModel {
        IdPoolModel {
            current: self.current as nat,
            available: Seq::new(self.available@.len(), |i: int| self.available@[i].0),
        }
    }
}

impl Default for IdPool {
    fn default() -> (pool: Self)
        ensures
            pool@.wf(),
            pool@.current == 0,
            pool@.available == Seq::<u32>::empty(),
    {
        Self { current: 0, available: Vec::new() }
    }
}

impl IdPool {
    pub fn new() -> (pool: Self)
        ensures
            pool@.wf(),
            pool@.current == 0,
            pool@.available == Seq::<u32>::empty(),
    {
        Self::default()
    }

    pub fn with_base(base: u32) -> (pool: Self)
        ensures
            pool@.wf(),
            pool@.current == base,
            pool@.available == Seq::<u32>::empty(),
    {
        let mut this = Self::new();
        this.current = base;
        this
    }

    /// Whether another identifier can be issued.
    pub fn can_issue(&self) -> (b: bool)
        ensures
            b == self@.can_issue(),
    {
        self.available.len() > 0 || self.current < u32::MAX
    }

    /// Whether `id` was issued and has not been freed since.
    pub fn is_live(&self, id: InstanceId) -> (b: bool)
        ensures
            b == self@.is_live(id.0),
    {
        if id.0 >= self.current {
            return false;
        }
        let mut i: usize = 0;
        while i < self.available.len()
            invariant
                0 <= i <= self.available@.len(),
                id.0 < self.current,
                forall|j: int| 0 <= j < i ==> self@.available[j] != id.0,
            decreases self.available@.len() - i,
        {
            if self.available[i].0 == id.0 {
                assert(self@.available[i as int] == id.0);
                return false;
            }
            i += 1;
        }
        true
    }

    pub fn get_next(&mut self) -> (id: InstanceId)
        requires
            old(self)@.wf(),
            old(self)@.can_issue(),
        ensures
            final(self)@.wf(),
            id.0 == old(self)@.next_id(),
            final(self)@ == old(self)@.after_issue(),
            !old(self)@.is_live(id.0),
            final(self)@.live() == old(self)@.live().insert(id.0),
    {
        let ghost pre = self@;
        if let Some(id) = self.available.pop() {
            proof {
                assert(self@.available =~= pre.available.drop_last());
                assert(pre.available[pre.available.len() - 1] == id.0);
                assert(self@.live() =~= pre.live().insert(id.0)) by {
                    assert forall|x: u32| self@.is_live(x) <==> (pre.is_live(x) || x == id.0) by {
                        if pre.available.contains(x) && x != id.0 {
                            let k = choose|k: int| 0 <= k < pre.available.len() && pre.available[k] == x;
                            assert(self@.available[k] == x);
                        }
                    }
                }
            }
            id
        } else {
            let ret = InstanceId(self.current);
            self.current += 1;
            proof {
                assert(self@.available =~= pre.available);
                assert(self@.live() =~= pre.live().insert(ret.0));
            }
            ret
        }
    }

    pub fn free(&mut self, id: InstanceId)
        requires
            old(self)@.wf(),
            old(self)@.is_live(id.0),
        ensures
            final(self)@.wf(),
            final(self)@ == old(self)@.after_free(id.0),
            final(self)@.live() == old(self)@.live().remove(id.0),
    {
        let ghost pre = self@;
        self.available.push(id);
        proof {
            assert(self@.available =~= pre.available.push(id.0));
            assert(self@.live() =~= pre.live().remove(id.0)) by {
                assert forall|x: u32| self@.is_live(x) <==> (pre.is_live(x) && x != id.0) by {
                    if pre.available.contains(x) {
                        let k = choose|k: int| 0 <= k < pre.available.len() && pre.available[k] == x;
                        assert(self@.available[k] == x);
                    }
                    assert(self@.available[pre.available.len() as int] == id.0);
                }
            }
        }
    }
}

} // verus!
