//! Staging of per-object data: for every data type one byte buffer in which
//! each object has a block of the type's size, found again by the object's
//! identifier.

use crate::entries::SortedEntries;
use crate::immediate::ByteRange;
use crate::sorted::search_result;
use crate::utils::{IdPool, IdPoolModel, InstanceId, StagingBuffer, TypeInfo};
use vstd::prelude::*;

verus! {

/// Mathematical model of an [`Ssbo`].
pub struct SsboModel {
    /// The size in bytes of one block.
    pub size: nat,
    /// The contents of the staging buffer.
    pub bytes: Seq<u8>,
    /// The offset of the block of every object that has one.
    pub offsets: Map<u32, usize>,
}

impl SsboModel {
    /// Every block lies inside the staging buffer.
    pub open spec fn wf(self) -> bool {
        forall|id: u32|
            self.offsets.dom().contains(id) ==> (#[trigger] self.offsets[id]) + self.size
                <= self.bytes.len()
    }

    /// The block of the object `id`.
    pub open spec fn block(self, id: u32) -> Seq<u8> {
        self.bytes.subrange(self.offsets[id] as int, self.offsets[id] + self.size)
    }

    /// The model after `block` was uploaded for `id`: written over the
    /// block that `id` has, or appended as a new block.
    pub open spec fn upload(self, id: u32, block: Seq<u8>) -> SsboModel {
        if self.offsets.dom().contains(id) {
            let at = self.offsets[id] as int;
            SsboModel {
                size: self.size,
                bytes: self.bytes.subrange(0, at) + block + self.bytes.subrange(
                    at + self.size,
                    self.bytes.len() as int,
                ),
                offsets: self.offsets,
            }
        } else {
            SsboModel {
                size: self.size,
                bytes: self.bytes + block,
                offsets: self.offsets.insert(id, self.bytes.len() as usize),
            }
        }
    }

    /// The model after the object `id` was removed: its block is no longer
    /// found; the bytes stay.
    pub open spec fn remove(self, id: u32) -> SsboModel {
        SsboModel { size: self.size, bytes: self.bytes, offsets: self.offsets.remove(id) }
    }
}

/// The staging buffer of one data type, with the block of each object.
pub struct Ssbo {
    type_info: TypeInfo,
    updated_range: ByteRange,
    staging_buffer: StagingBuffer,
    entries: SortedEntries<usize>,
}

impl View for Ssbo {
    type V = SsboModel;

    closed spec fn view(&self) -> SsboModel {
        SsboModel {
            size: self.type_info.size as nat,
            bytes: self.staging_buffer@,
            offsets: self.entries@,
        }
    }
}

impl Ssbo {
    /// The description of the data type.
    pub closed spec fn info(&self) -> TypeInfo {
        self.type_info
    }

    /// The identifiers of the objects that have a block, ascending.
    pub closed spec fn ids(&self) -> Seq<u32> {
        self.entries.keys()
    }

    /// The table of blocks is sorted and every block lies in the buffer.
    pub closed spec fn wf(&self) -> bool {
        &&& self.entries.wf()
        &&& self@.wf()
    }

    /// What well-formedness means for the model.
    pub proof fn lemma_wf(&self)
        requires
            self.wf(),
        ensures
            self@.wf(),
            self@.size == self.info().size,
            forall|id: u32| self@.offsets.dom().contains(id) <==> self.ids().contains(id),
    {
    }

    /// An empty staging buffer for the data type that `type_info` describes.
    pub fn new(type_info: TypeInfo) -> (ssbo: Self)
        ensures
            ssbo.wf(),
            ssbo.info() == type_info,
            ssbo@.size == type_info.size,
            ssbo@.bytes == Seq::<u8>::empty(),
            ssbo@.offsets == Map::<u32, usize>::empty(),
    {
        Self {
            type_info,
            updated_range: ByteRange { start: 0, end: 0 },
            staging_buffer: Vec::new(),
            entries: SortedEntries::new(),
        }
    }

    /// The size in bytes of one block.
    pub fn block_size(&self) -> (n: usize)
        ensures
            n == self@.size,
    {
        self.type_info.size
    }

    /// The bytes staged so far.
    pub fn staged(&self) -> (bytes: &[u8])
        ensures
            bytes@ == self@.bytes,
    {
        self.staging_buffer.as_slice()
    }

    /// Binary search for the block of `id`: `Ok` with its position among
    /// the blocks in ascending order of identifiers, or `Err` with the
    /// position that it would take.
    pub fn find_by_id(&self, id: InstanceId) -> (r: Result<usize, usize>)
        requires
            self.wf(),
        ensures
            search_result(self.ids(), id.0, r),
            r.is_ok() <==> self@.offsets.dom().contains(id.0),
    {
        self.entries.find(id.0)
    }

    /// The offset of the block of `id`, if it has one.
    pub fn offset_of(&self, id: InstanceId) -> (r: Option<usize>)
        requires
            self.wf(),
        ensures
            r.is_some() <==> self@.offsets.dom().contains(id.0),
            r matches Some(at) ==> at == self@.offsets[id.0] && at + self@.size
                <= self@.bytes.len(),
    {
        match self.entries.get(id.0) {
            Some(at) => Some(*at),
            None => None,
        }
    }

    /// Stages `block` for the object `id`: over the block that the object
    /// has, or as a new block at the end of the buffer.
    pub fn upload(&mut self, id: InstanceId, block: &[u8])
        requires
            old(self).wf(),
            block@.len() == old(self)@.size,
        ensures
            final(self).wf(),
            final(self).info() == old(self).info(),
            final(self)@ == old(self)@.upload(id.0, block@),
    {
        let ghost pre = *self;
        let size = self.type_info.size;
        match self.offset_of(id) {
            Some(at) => {
                let len = self.staging_buffer.len();
                let mut k: usize = 0;
                while k < size
                    invariant
                        0 <= k <= size,
                        size == block@.len(),
                        at + size <= len,
                        len == pre.staging_buffer@.len(),
                        self.type_info == pre.type_info,
                        self.entries == pre.entries,
                        self.updated_range == pre.updated_range,
                        self.staging_buffer@.len() == pre.staging_buffer@.len(),
                        forall|i: int|
                            0 <= i < self.staging_buffer@.len() ==> self.staging_buffer@[i] == if at
                                <= i < at + k {
                                block@[i - at]
                            } else {
                                pre.staging_buffer@[i]
                            },
                    decreases size - k,
                {
                    self.staging_buffer.set(at + k, block[k]);
                    k += 1;
                }
                proof {
                    assert(self@.bytes =~= pre@.upload(id.0, block@).bytes);
                }
            },
            None => {
                let at = self.staging_buffer.len();
                let mut k: usize = 0;
                while k < size
                    invariant
                        0 <= k <= size,
                        size == block@.len(),
                        self.type_info == pre.type_info,
                        self.entries == pre.entries,
                        self.updated_range == pre.updated_range,
                        self.staging_buffer@ == pre.staging_buffer@ + block@.take(k as int),
                    decreases size - k,
                {
                    self.staging_buffer.push(block[k]);
                    proof {
                        assert(block@.take(k + 1) =~= block@.take(k as int).push(block@[k as int]));
                    }
                    k += 1;
                }
                self.entries.insert(id.0, at);
                proof {
                    assert(block@.take(size as int) =~= block@);
                    assert(self@.offsets =~= pre@.offsets.insert(id.0, at));
                    assert forall|x: u32| self@.offsets.dom().contains(x) implies (
                    #[trigger] self@.offsets[x]) + self@.size <= self@.bytes.len() by {
                        if x != id.0 {
                            assert(pre@.offsets.dom().contains(x));
                            assert(pre@.offsets[x] + pre@.size <= pre@.bytes.len());
                        }
                    }
                }
            },
        }
    }

    /// Forgets the block of the object `id`. Returns whether it had one.
    /// The staged bytes stay as they are.
    pub fn remove(&mut self, id: InstanceId) -> (removed: bool)
        requires
            old(self).wf(),
        ensures
            final(self).wf(),
            final(self).info() == old(self).info(),
            removed == old(self)@.offsets.dom().contains(id.0),
            final(self)@ == old(self)@.remove(id.0),
    {
        let ghost pre = *self;
        let removed = self.entries.remove(id.0).is_some();
        proof {
            assert forall|x: u32| self@.offsets.dom().contains(x) implies (
            #[trigger] self@.offsets[x]) + self@.size <= self@.bytes.len() by {
                assert(pre@.offsets.dom().contains(x));
                assert(pre@.offsets[x] + pre@.size <= pre@.bytes.len());
            }
        }
        removed
    }
}


/// The staging buffer of the data type with the given key.
pub struct TypedSsbo {
    pub key: u64,
    pub ssbo: Ssbo,
}

/// The position of the first staging buffer with key `key` among the first
/// `n`, if there is one.
pub open spec fn first_with_key(table: Seq<TypedSsbo>, key: u64, n: nat) -> Option<int>
    decreases n,
{
    if n == 0 {
        None
    } else {
        match first_with_key(table, key, (n - 1) as nat) {
            Some(i) => Some(i),
            None => if table[n - 1].key == key {
                Some(n - 1)
            } else {
                None
            },
        }
    }
}

/// The position of the first staging buffer among the first `n` that holds
/// a block for `id`, if there is one.
pub open spec fn first_with_block(table: Seq<TypedSsbo>, id: u32, n: nat) -> Option<int>
    decreases n,
{
    if n == 0 {
        None
    } else {
        match first_with_block(table, id, (n - 1) as nat) {
            Some(i) => Some(i),
            None => if table[n - 1].ssbo@.offsets.dom().contains(id) {
                Some(n - 1)
            } else {
                None
            },
        }
    }
}

/// A search among the first `n` staging buffers answers with a position
/// below `n` that has the key, and with nothing only if none has it.
pub proof fn lemma_first_with_key(table: Seq<TypedSsbo>, key: u64, n: nat)
    requires
        n <= table.len(),
    ensures
        first_with_key(table, key, n) matches Some(i) ==> 0 <= i < n && table[i].key == key,
        first_with_key(table, key, n) is None ==> forall|j: int|
            0 <= j < n ==> (#[trigger] table[j]).key != key,
    decreases n,
{
    if n > 0 {
        lemma_first_with_key(table, key, (n - 1) as nat);
    }
}

/// A search among the first `n` staging buffers answers with a position
/// below `n` that holds a block for `id`, and with nothing only if none does.
pub proof fn lemma_first_with_block(table: Seq<TypedSsbo>, id: u32, n: nat)
    requires
        n <= table.len(),
    ensures
        first_with_block(table, id, n) matches Some(i) ==> 0 <= i < n
            && table[i].ssbo@.offsets.dom().contains(id),
        first_with_block(table, id, n) is None ==> forall|j: int|
            0 <= j < n ==> !(#[trigger] table[j]).ssbo@.offsets.dom().contains(id),
    decreases n,
{
    if n > 0 {
        lemma_first_with_block(table, id, (n - 1) as nat);
    }
}

/// The staging buffers of all data types, one per type key, in the order
/// in which the types were first used.
pub struct SsboManager {
    ssbo_map: Vec<TypedSsbo>,
    ssbo_ids: IdPool,
}

impl SsboManager {
    /// The staging buffers in the order in which their types were first used.
    pub closed spec fn table(&self) -> Seq<TypedSsbo> {
        self.ssbo_map@
    }

    /// The state of the pool of object identifiers.
    pub closed spec fn ids(&self) -> IdPoolModel {
        self.ssbo_ids@
    }

    /// Every staging buffer is well-formed.
    pub open spec fn wf(&self) -> bool {
        &&& self.ids().wf()
        &&& forall|i: int| 0 <= i < self.table().len() ==> (#[trigger] self.table()[i]).ssbo.wf()
    }

    pub fn new() -> (m: Self)
        ensures
            m.wf(),
            m.table() == Seq::<TypedSsbo>::empty(),
            m.ids().current == 0,
            m.ids().available == Seq::<u32>::empty(),
    {
        Self { ssbo_map: Vec::new(), ssbo_ids: IdPool::new() }
    }

    /// Whether the identifier of another object can be issued.
    pub fn can_issue_id(&self) -> (b: bool)
        ensures
            b == self.ids().can_issue(),
    {
        self.ssbo_ids.can_issue()
    }

    /// Issues the identifier of a new object.
    pub fn new_id(&mut self) -> (id: InstanceId)
        requires
            old(self).wf(),
            old(self).ids().can_issue(),
        ensures
            final(self).wf(),
            final(self).table() == old(self).table(),
            id.0 == old(self).ids().next_id(),
            final(self).ids() == old(self).ids().after_issue(),
    {
        let id = self.ssbo_ids.get_next();
        assert(self.table() == old(self).table());
        id
    }

    /// The position of the staging buffer with key `key`, if there is one.
    pub fn position_of(&self, key: u64) -> (r: Option<usize>)
        ensures
            r matches Some(i) ==> first_with_key(self.table(), key, self.table().len()) == Some(
                i as int,
            ),
            r is None ==> first_with_key(self.table(), key, self.table().len()) is None,
    {
        let mut i: usize = 0;
        while i < self.ssbo_map.len()
            invariant
                0 <= i <= self.ssbo_map@.len(),
                first_with_key(self.table(), key, i as nat) is None,
            decreases self.ssbo_map@.len() - i,
        {
            if self.ssbo_map[i].key == key {
                proof {
                    assert(first_with_key(self.table(), key, (i + 1) as nat) == Some(i as int));
                    lemma_first_with_key_stable(
                        self.table(),
                        key,
                        (i + 1) as nat,
                        self.table().len(),
                    );
                }
                return Some(i);
            }
            i += 1;
        }
        None
    }

    /// The position of the staging buffer of the data type with key `key`,
    /// which is created empty, at the end, if there was none.
    pub fn get_ssbo(&mut self, key: u64, type_info: TypeInfo) -> (index: usize)
        requires
            old(self).wf(),
        ensures
            final(self).wf(),
            final(self).ids() == old(self).ids(),
            index < final(self).table().len(),
            final(self).table()[index as int].key == key,
            match first_with_key(old(self).table(), key, old(self).table().len()) {
                Some(i) => index == i && final(self).table() == old(self).table(),
                None => {
                    &&& index == old(self).table().len()
                    &&& final(self).table().len() == old(self).table().len() + 1
                    &&& final(self).table().drop_last() == old(self).table()
                    &&& final(self).table()[index as int].ssbo.info() == type_info
                    &&& final(self).table()[index as int].ssbo@.size == type_info.size
                    &&& final(self).table()[index as int].ssbo@.bytes == Seq::<u8>::empty()
                    &&& final(self).table()[index as int].ssbo@.offsets == Map::<
                        u32,
                        usize,
                    >::empty()
                },
            },
    {
        proof {
            lemma_first_with_key(self.table(), key, self.table().len());
        }
        match self.position_of(key) {
            Some(i) => i,
            None => {
                let ghost pre = self.table();
                self.ssbo_map.push(TypedSsbo { key, ssbo: Ssbo::new(type_info) });
                proof {
                    assert(self.table().drop_last() =~= pre);
                    assert forall|i: int| 0 <= i < self.table().len() implies (
                    #[trigger] self.table()[i]).ssbo.wf() by {
                        if i < pre.len() {
                            assert(self.table()[i] == pre[i]);
                        }
                    }
                }
                self.ssbo_map.len() - 1
            },
        }
    }

    /// Stages `block` for the object `id` in the staging buffer of the data
    /// type with key `key`, which is created if need be. Every other
    /// staging buffer stays as it is.
    pub fn upload_uniform(&mut self, key: u64, type_info: TypeInfo, id: InstanceId, block: &[u8])
        requires
            old(self).wf(),
            block@.len() == type_info.size,
            first_with_key(old(self).table(), key, old(self).table().len()) matches Some(i)
                ==> old(self).table()[i].ssbo@.size == block@.len(),
        ensures
            final(self).wf(),
            final(self).ids() == old(self).ids(),
            match first_with_key(old(self).table(), key, old(self).table().len()) {
                Some(i) => {
                    &&& final(self).table().len() == old(self).table().len()
                    &&& forall|j: int|
                        0 <= j < old(self).table().len() && j != i ==> final(self).table()[j]
                            == old(self).table()[j]
                    &&& final(self).table()[i].key == key
                    &&& final(self).table()[i].ssbo@ == old(self).table()[i].ssbo@.upload(
                        id.0,
                        block@,
                    )
                },
                None => {
                    &&& final(self).table().len() == old(self).table().len() + 1
                    &&& final(self).table().drop_last() == old(self).table()
                    &&& final(self).table().last().key == key
                    &&& final(self).table().last().ssbo.info() == type_info
                    &&& final(self).table().last().ssbo@ == (SsboModel {
                        size: type_info.size as nat,
                        bytes: block@,
                        offsets: Map::<u32, usize>::empty().insert(id.0, 0usize),
                    })
                },
            },
    {
        let ghost pre = self.table();
        proof {
            lemma_first_with_key(pre, key, pre.len());
        }
        let index = self.get_ssbo(key, type_info);
        let ghost mid = self.table();
        self.ssbo_map[index].ssbo.upload(id, block);
        proof {
            let post = self.table();
            assert forall|i: int| 0 <= i < post.len() implies (#[trigger] post[i]).ssbo.wf() by {
                if i != index {
                    assert(post[i] == mid[i]);
                }
            }
            if first_with_key(pre, key, pre.len()) is None {
                assert(post.drop_last() =~= pre) by {
                    assert(mid.drop_last() == pre);
                    assert forall|j: int| 0 <= j < pre.len() implies post.drop_last()[j]
                        == pre[j] by {
                        assert(post[j] == mid[j]);
                        assert(mid.drop_last()[j] == mid[j]);
                    }
                }
                assert(post.last().ssbo@.bytes =~= block@);
            } else {
                assert forall|j: int| 0 <= j < pre.len() && j != index implies post[j]
                    == pre[j] by {
                    assert(post[j] == mid[j]);
                }
            }
        }
    }

    /// Forgets the block of the object `id` in the first staging buffer
    /// that holds one. Returns whether any did. Every other staging buffer
    /// stays as it is, and so do the staged bytes.
    pub fn remove_uniform(&mut self, id: InstanceId) -> (removed: bool)
        requires
            old(self).wf(),
        ensures
            final(self).wf(),
            final(self).ids() == old(self).ids(),
            final(self).table().len() == old(self).table().len(),
            match first_with_block(old(self).table(), id.0, old(self).table().len()) {
                Some(i) => {
                    &&& removed
                    &&& forall|j: int|
                        0 <= j < old(self).table().len() && j != i ==> final(self).table()[j]
                            == old(self).table()[j]
                    &&& final(self).table()[i].key == old(self).table()[i].key
                    &&& final(self).table()[i].ssbo@ == old(self).table()[i].ssbo@.remove(id.0)
                },
                None => !removed && final(self).table() == old(self).table(),
            },
    {
        let ghost pre = self.table();
        let mut i: usize = 0;
        while i < self.ssbo_map.len()
            invariant
                0 <= i <= self.ssbo_map@.len(),
                self.table() == pre,
                pre == old(self).table(),
                self.ssbo_ids == old(self).ssbo_ids,
                self.wf(),
                first_with_block(pre, id.0, i as nat) is None,
            decreases self.ssbo_map@.len() - i,
        {
            if self.ssbo_map[i].ssbo.offset_of(id).is_some() {
                proof {
                    assert(first_with_block(pre, id.0, (i + 1) as nat) == Some(i as int));
                    lemma_first_with_block_stable(pre, id.0, (i + 1) as nat, pre.len());
                }
                let _ = self.ssbo_map[i].ssbo.remove(id);
                proof {
                    let post = self.table();
                    assert forall|j: int| 0 <= j < post.len() implies (
                    #[trigger] post[j]).ssbo.wf() by {
                        if j != i {
                            assert(post[j] == pre[j]);
                        }
                    }
                }
                return true;
            }
            i += 1;
        }
        false
    }

    /// The staging buffer of the data type with key `key`, if there is one.
    pub fn ssbo(&self, key: u64) -> (r: Option<&Ssbo>)
        ensures
            match first_with_key(self.table(), key, self.table().len()) {
                Some(i) => r matches Some(ssbo) && *ssbo == self.table()[i].ssbo,
                None => r is None,
            },
    {
        proof {
            lemma_first_with_key(self.table(), key, self.table().len());
        }
        match self.position_of(key) {
            Some(i) => Some(&self.ssbo_map[i].ssbo),
            None => None,
        }
    }
}

/// Once a staging buffer with the key is found, looking further does not
/// change the answer.
pub proof fn lemma_first_with_key_stable(table: Seq<TypedSsbo>, key: u64, n: nat, m: nat)
    requires
        n <= m,
        first_with_key(table, key, n) is Some,
    ensures
        first_with_key(table, key, m) == first_with_key(table, key, n),
    decreases m,
{
    if n < m {
        lemma_first_with_key_stable(table, key, n, (m - 1) as nat);
    }
}

/// Once a staging buffer with a block for the object is found, looking
/// further does not change the answer.
pub proof fn lemma_first_with_block_stable(table: Seq<TypedSsbo>, id: u32, n: nat, m: nat)
    requires
        n <= m,
        first_with_block(table, id, n) is Some,
    ensures
        first_with_block(table, id, m) == first_with_block(table, id, n),
    decreases m,
{
    if n < m {
        lemma_first_with_block_stable(table, id, n, (m - 1) as nat);
    }
}

} // verus!
