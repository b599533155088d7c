//! Sub-allocation of small byte ranges inside one growable buffer.

use crate::utils::{IdPool, IdPoolModel, InstanceId};
use vstd::pervasive::unreached;
use vstd::prelude::*;
use vstd::slice::slice_subrange;

verus! {

/// Smallest length the backing buffer takes when it first grows.
pub const MIN_BUFFER_LEN: usize = 64;

/// A half-open range of bytes, `start..end`, inside the backing buffer.
#[derive(Debug, Clone, Copy, PartialEq, Eq, Structural)]
pub struct ByteRange {
    pub start: usize,
    pub end: usize,
}

impl ByteRange {
    /// The number of bytes in the range.
    pub open spec fn size(self) -> int {
        self.end - self.start
    }

    /// Two ranges are disjoint when one ends before the other starts.
    pub open spec fn disjoint(self, other: ByteRange) -> bool {
        self.end <= other.start || other.end <= self.start
    }
}

/// Ranges laid out one after the other: each is well-formed and ends before
/// its successor starts.
pub open spec fn chained(layout: Seq<ByteRange>) -> bool {
    &&& forall|i: int| 0 <= i < layout.len() ==> (#[trigger] layout[i]).start <= layout[i].end
    &&& forall|i: int, j: int|
        0 <= i < j < layout.len() ==> (#[trigger] layout[i]).end <= (#[trigger] layout[j]).start
}

/// First fit: scanning the occupied ranges in ascending order from `cursor`,
/// the offset of the first gap of at least `size` bytes before a range, or
/// the end of the last range when no such gap exists.
pub open spec fn fit_offset(layout: Seq<ByteRange>, cursor: int, size: int) -> int
    decreases layout.len(),
{
    if layout.len() == 0 || layout[0].start - cursor >= size {
        cursor
    } else {
        fit_offset(layout.drop_first(), layout[0].end as int, size)
    }
}

/// The number of occupied ranges that the first-fit scan passes over.
pub open spec fn fit_index(layout: Seq<ByteRange>, cursor: int, size: int) -> int
    decreases layout.len(),
{
    if layout.len() == 0 || layout[0].start - cursor >= size {
        0
    } else {
        1 + fit_index(layout.drop_first(), layout[0].end as int, size)
    }
}

/// The length of the buffer once it holds an allocation that ends at `end`:
/// unchanged while the allocation fits, otherwise the largest of twice the
/// old length, twice the end of the allocation, and the minimum length.
pub open spec fn grown_len(len: int, end: int) -> int {
    if end <= len {
        len
    } else {
        let a = if 2 * len >= 2 * end { 2 * len } else { 2 * end };
        if a >= MIN_BUFFER_LEN { a } else { MIN_BUFFER_LEN as int }
    }
}

/// Where the first-fit scan stops: at the cursor when nothing was passed,
/// else at the end of the last range passed; every gap passed was too small,
/// and the gap found, if the scan stopped before a range, is large enough.
pub proof fn lemma_fit_characterisation(layout: Seq<ByteRange>, cursor: int, size: int)
    ensures
        ({
            let k = fit_index(layout, cursor, size);
            let p = fit_offset(layout, cursor, size);
            &&& 0 <= k <= layout.len()
            &&& p == if k == 0 { cursor } else { layout[k - 1].end as int }
            &&& k < layout.len() ==> layout[k].start - p >= size
            &&& forall|i: int|
                0 <= i < k ==> (#[trigger] layout[i]).start - (if i == 0 {
                    cursor
                } else {
                    layout[i - 1].end as int
                }) < size
        }),
    decreases layout.len(),
{
    if !(layout.len() == 0 || layout[0].start - cursor >= size) {
        let rest = layout.drop_first();
        let c = layout[0].end as int;
        lemma_fit_characterisation(rest, c, size);
        let k = fit_index(layout, cursor, size);
        let kr = fit_index(rest, c, size);
        assert(k == kr + 1);
        assert forall|i: int| 0 <= i < k implies (#[trigger] layout[i]).start - (if i == 0 {
            cursor
        } else {
            layout[i - 1].end as int
        }) < size by {
            if i > 0 {
                assert(layout[i] == rest[i - 1]);
                if i > 1 {
                    assert(layout[i - 1] == rest[i - 2]);
                }
            }
        }
        if kr > 0 {
            assert(layout[k - 1] == rest[kr - 1]);
        }
        if k < layout.len() {
            assert(layout[k] == rest[kr]);
        }
    }
}


/// The gap before range `i` of `layout`, measured from `cursor` for the
/// first range and from the end of the preceding range otherwise.
pub open spec fn gap_before(layout: Seq<ByteRange>, cursor: int, i: int) -> int {
    layout[i].start - (if i == 0 {
        cursor
    } else {
        layout[i - 1].end as int
    })
}

/// The first-fit position is the least position whose gap is large enough.
pub proof fn lemma_fit_unique(layout: Seq<ByteRange>, cursor: int, size: int, k: int)
    requires
        0 <= k <= layout.len(),
        forall|i: int| 0 <= i < k ==> gap_before(layout, cursor, i) < size,
        k < layout.len() ==> gap_before(layout, cursor, k) >= size,
    ensures
        k == fit_index(layout, cursor, size),
        fit_offset(layout, cursor, size) == if k == 0 {
            cursor
        } else {
            layout[k - 1].end as int
        },
{
    lemma_fit_characterisation(layout, cursor, size);
    let f = fit_index(layout, cursor, size);
    if k < f {
        assert(gap_before(layout, cursor, k) < size) by {
            assert(layout[k].start == layout[k].start);
        }
    } else if f < k {
        assert(gap_before(layout, cursor, f) < size);
    }
}

/// Mathematical model of an [`ImmediateManager`].
pub struct ImmediateModel {
    /// The contents of the backing buffer.
    pub bytes: Seq<u8>,
    /// The range of every live identifier.
    pub ranges: Map<u32, ByteRange>,
    /// The live identifiers in ascending order of their ranges.
    pub order: Seq<u32>,
}

impl ImmediateModel {
    /// The occupied ranges in ascending order.
    pub open spec fn layout(self) -> Seq<ByteRange> {
        Seq::new(self.order.len(), |i: int| self.ranges[self.order[i]])
    }

    /// Where an allocation of `size` bytes is placed.
    pub open spec fn offset_for(self, size: int) -> int {
        fit_offset(self.layout(), 0, size)
    }

    /// The position that an allocation of `size` bytes takes in the order.
    pub open spec fn position_for(self, size: int) -> int {
        fit_index(self.layout(), 0, size)
    }

    /// The range that an allocation of `size` bytes takes.
    pub open spec fn range_for(self, size: int) -> ByteRange {
        ByteRange {
            start: self.offset_for(size) as usize,
            end: (self.offset_for(size) + size) as usize,
        }
    }

    /// The model after `size` bytes were allocated under the fresh
    /// identifier `id`, the buffer then holding `bytes`.
    pub open spec fn allocate(self, id: u32, size: int, bytes: Seq<u8>) -> ImmediateModel {
        ImmediateModel {
            bytes,
            ranges: self.ranges.insert(id, self.range_for(size)),
            order: self.order.insert(self.position_for(size), id),
        }
    }

    /// The model after the live identifier `id` was released.
    pub open spec fn release(self, id: u32) -> ImmediateModel {
        ImmediateModel {
            bytes: self.bytes,
            ranges: self.ranges.remove(id),
            order: self.order.remove(self.order.index_of(id)),
        }
    }

    /// The order lists every live identifier once, the ranges follow one
    /// another without overlap, and all of them lie inside the buffer.
    pub open spec fn wf(self) -> bool {
        &&& self.order.no_duplicates()
        &&& forall|id: u32| self.ranges.dom().contains(id) <==> self.order.contains(id)
        &&& chained(self.layout())
        &&& forall|i: int|
            0 <= i < self.order.len() ==> (#[trigger] self.layout()[i]).end <= self.bytes.len()
    }

    /// The bytes stored for the live identifier `id`.
    pub open spec fn data(self, id: u32) -> Seq<u8> {
        self.bytes.subrange(self.ranges[id].start as int, self.ranges[id].end as int)
    }
}

/// Inserting into a duplicate-free sequence an element that it lacks keeps
/// it duplicate-free and adds exactly that element.
pub proof fn lemma_insert_fresh(s: Seq<u32>, k: int, x: u32)
    requires
        s.no_duplicates(),
        !s.contains(x),
        0 <= k <= s.len(),
    ensures
        s.insert(k, x).no_duplicates(),
        forall|y: u32| s.insert(k, x).contains(y) <==> (s.contains(y) || y == x),
{
    let t = s.insert(k, x);
    assert forall|a: int, b: int| 0 <= a < t.len() && 0 <= b < t.len() && a != b implies t[a]
        != t[b] by {
        let a0 = if a < k { a } else { a - 1 };
        let b0 = if b < k { b } else { b - 1 };
        if a != k && b != k {
            assert(t[a] == s[a0] && t[b] == s[b0]);
        } else if a == k {
            assert(t[b] == s[b0]);
        } else {
            assert(t[a] == s[a0]);
        }
    }
    assert forall|y: u32| t.contains(y) <==> (s.contains(y) || y == x) by {
        assert(t[k] == x);
        if s.contains(y) {
            let a = choose|a: int| 0 <= a < s.len() && s[a] == y;
            let b = if a < k { a } else { a + 1 };
            assert(t[b] == y);
        }
        if t.contains(y) && y != x {
            let b = choose|b: int| 0 <= b < t.len() && t[b] == y;
            let a = if b < k { b } else { b - 1 };
            assert(s[a] == y);
        }
    }
}

/// Removing one position from a duplicate-free sequence keeps it
/// duplicate-free and removes exactly the element at that position.
pub proof fn lemma_remove_position(s: Seq<u32>, k: int)
    requires
        s.no_duplicates(),
        0 <= k < s.len(),
    ensures
        s.remove(k).no_duplicates(),
        forall|y: u32| s.remove(k).contains(y) <==> (s.contains(y) && y != s[k]),
{
    let t = s.remove(k);
    assert forall|a: int, b: int| 0 <= a < t.len() && 0 <= b < t.len() && a != b implies t[a]
        != t[b] by {
        let a0 = if a < k { a } else { a + 1 };
        let b0 = if b < k { b } else { b + 1 };
        assert(t[a] == s[a0] && t[b] == s[b0]);
    }
    assert forall|y: u32| t.contains(y) <==> (s.contains(y) && y != s[k]) by {
        if s.contains(y) && y != s[k] {
            let a = choose|a: int| 0 <= a < s.len() && s[a] == y;
            let b = if a < k { a } else { a - 1 };
            assert(t[b] == y);
        }
        if t.contains(y) {
            let b = choose|b: int| 0 <= b < t.len() && t[b] == y;
            let a = if b < k { b } else { b + 1 };
            assert(s[a] == y);
        }
    }
}

/// Allocation keeps the model well-formed: the first-fit range overlaps no
/// occupied range and lies inside any buffer that reaches its end.
pub proof fn lemma_allocate_wf(m: ImmediateModel, id: u32, size: int, bytes: Seq<u8>)
    requires
        m.wf(),
        !m.ranges.dom().contains(id),
        0 <= size,
        m.bytes.len() <= bytes.len() <= usize::MAX,
        m.offset_for(size) + size <= bytes.len(),
    ensures
        0 <= m.offset_for(size) <= m.bytes.len(),
        0 <= m.position_for(size) <= m.order.len(),
        m.allocate(id, size, bytes).wf(),
        m.allocate(id, size, bytes).layout() == m.layout().insert(
            m.position_for(size),
            m.range_for(size),
        ),
{
    let layout = m.layout();
    let k = m.position_for(size);
    let p = m.offset_for(size);
    let range = m.range_for(size);
    let m1 = m.allocate(id, size, bytes);
    lemma_fit_characterisation(layout, 0, size);
    if k > 0 {
        assert(layout[k - 1].end <= m.bytes.len());
    }
    assert(!m.order.contains(id));
    lemma_insert_fresh(m.order, k, id);
    let l1 = m1.layout();
    assert(l1 =~= layout.insert(k, range)) by {
        assert forall|a: int| 0 <= a < l1.len() implies l1[a] == layout.insert(k, range)[a] by {
            if a != k {
                let a0 = if a < k { a } else { a - 1 };
                assert(m1.order[a] == m.order[a0]);
                assert(m.order.contains(m.order[a0]));
                assert(layout[a0] == m.ranges[m.order[a0]]);
            }
        }
    }
    assert(chained(l1)) by {
        assert forall|a: int| 0 <= a < l1.len() implies (#[trigger] l1[a]).start <= l1[a].end by {
            if a != k {
                let a0 = if a < k { a } else { a - 1 };
                assert(l1[a] == layout[a0]);
            }
        }
        assert forall|a: int, b: int| 0 <= a < b < l1.len() implies (#[trigger] l1[a]).end <= (
        #[trigger] l1[b]).start by {
            let a0 = if a < k { a } else { a - 1 };
            let b0 = if b < k { b } else { b - 1 };
            if a != k && b != k {
                assert(l1[a] == layout[a0] && l1[b] == layout[b0]);
            } else if b == k {
                assert(l1[a] == layout[a]);
                assert(layout[a].end <= layout[k - 1].end) by {
                    if a < k - 1 {
                        assert(layout[a].end <= layout[k - 1].start);
                        assert(layout[k - 1].start <= layout[k - 1].end);
                    }
                }
            } else {
                assert(l1[b] == layout[b - 1]);
                assert(layout[k].start <= layout[b - 1].start) by {
                    if k < b - 1 {
                        assert(layout[k].end <= layout[b - 1].start);
                        assert(layout[k].start <= layout[k].end);
                    }
                }
            }
        }
    }
    assert forall|a: int| 0 <= a < m1.order.len() implies (#[trigger] m1.layout()[a]).end
        <= m1.bytes.len() by {
        if a != k {
            let a0 = if a < k { a } else { a - 1 };
            assert(l1[a] == layout[a0]);
            assert(layout[a0].end <= m.bytes.len());
        }
    }
    assert forall|x: u32| m1.ranges.dom().contains(x) <==> m1.order.contains(x) by {
        assert(m.ranges.dom().contains(x) <==> m.order.contains(x));
    }
    assert(m1.order.no_duplicates());
    assert(chained(m1.layout()));
}

/// Release keeps the model well-formed and leaves the other ranges where
/// they are.
pub proof fn lemma_release_wf(m: ImmediateModel, id: u32)
    requires
        m.wf(),
        m.ranges.dom().contains(id),
    ensures
        0 <= m.order.index_of(id) < m.order.len(),
        m.order[m.order.index_of(id)] == id,
        m.release(id).wf(),
        m.release(id).layout() == m.layout().remove(m.order.index_of(id)),
{
    let layout = m.layout();
    assert(m.order.contains(id));
    let k = m.order.index_of(id);
    let m1 = m.release(id);
    lemma_remove_position(m.order, k);
    let l1 = m1.layout();
    assert(l1 =~= layout.remove(k)) by {
        assert forall|a: int| 0 <= a < l1.len() implies l1[a] == layout.remove(k)[a] by {
            let a0 = if a < k { a } else { a + 1 };
            assert(m1.order[a] == m.order[a0]);
            assert(m.order[a0] != id);
        }
    }
    assert(chained(l1)) by {
        assert forall|a: int| 0 <= a < l1.len() implies (#[trigger] l1[a]).start <= l1[a].end by {
            let a0 = if a < k { a } else { a + 1 };
            assert(l1[a] == layout[a0]);
        }
        assert forall|a: int, b: int| 0 <= a < b < l1.len() implies (#[trigger] l1[a]).end <= (
        #[trigger] l1[b]).start by {
            let a0 = if a < k { a } else { a + 1 };
            let b0 = if b < k { b } else { b + 1 };
            assert(l1[a] == layout[a0] && l1[b] == layout[b0]);
        }
    }
    assert forall|a: int| 0 <= a < m1.order.len() implies (#[trigger] m1.layout()[a]).end
        <= m1.bytes.len() by {
        let a0 = if a < k { a } else { a + 1 };
        assert(l1[a] == layout[a0]);
        assert(layout[a0].end <= m.bytes.len());
    }
    assert forall|x: u32| m1.ranges.dom().contains(x) <==> m1.order.contains(x) by {
        assert(m.ranges.dom().contains(x) <==> m.order.contains(x));
    }
}

/// Releasing the range that was allocated last undoes the allocation: the
/// ranges and their order are as before, so the same request is placed at
/// the same offset again.
pub proof fn lemma_release_after_allocate(m: ImmediateModel, id: u32, size: int, bytes: Seq<u8>)
    requires
        m.wf(),
        !m.ranges.dom().contains(id),
        0 <= size,
        m.bytes.len() <= bytes.len() <= usize::MAX,
        m.offset_for(size) + size <= bytes.len(),
    ensures
        m.allocate(id, size, bytes).release(id).ranges == m.ranges,
        m.allocate(id, size, bytes).release(id).order == m.order,
        m.allocate(id, size, bytes).release(id).bytes == bytes,
        m.allocate(id, size, bytes).release(id).offset_for(size) == m.offset_for(size),
        m.allocate(id, size, bytes).release(id).range_for(size) == m.allocate(
            id,
            size,
            bytes,
        ).ranges[id],
{
    let k = m.position_for(size);
    let m1 = m.allocate(id, size, bytes);
    lemma_allocate_wf(m, id, size, bytes);
    lemma_release_wf(m1, id);
    let j = m1.order.index_of(id);
    assert(m1.order[k] == id);
    assert(j == k);
    let m2 = m1.release(id);
    assert(m2.order =~= m.order);
    assert(m2.ranges =~= m.ranges);
    assert(m2.layout() =~= m.layout()) by {
        assert(m2.layout() == m1.layout().remove(k));
        assert(m1.layout() == m.layout().insert(k, m.range_for(size)));
    }
}

/// In a well-formed model any two distinct live identifiers have disjoint
/// ranges, and every range lies inside the buffer.
pub proof fn lemma_ranges_disjoint(m: ImmediateModel, a: u32, b: u32)
    requires
        m.wf(),
        m.ranges.dom().contains(a),
        m.ranges.dom().contains(b),
        a != b,
    ensures
        m.ranges[a].disjoint(m.ranges[b]),
        m.ranges[a].start <= m.ranges[a].end <= m.bytes.len(),
{
    let l = m.layout();
    assert(m.order.contains(a));
    assert(m.order.contains(b));
    let i = choose|i: int| 0 <= i < m.order.len() && m.order[i] == a;
    let j = choose|j: int| 0 <= j < m.order.len() && m.order[j] == b;
    assert(l[i] == m.ranges[a]);
    assert(l[j] == m.ranges[b]);
    assert(i != j);
}

/// Packs independently-lived byte blobs into one buffer that grows on
/// demand. Freed ranges are reused first-fit; the buffer never shrinks.
pub struct ImmediateManager {
    pool: IdPool,
    buffer: Vec<u8>,
    /// The range of each identifier issued so far; `None` once freed.
    slots: Vec<Option<ByteRange>>,
    /// The live identifiers in ascending order of their ranges.
    order: Vec<u32>,
}

impl View for ImmediateManager {
    type V = ImmediateModel;

    closed spec fn view(&self) -> ImmediateModel {
        ImmediateModel {
            bytes: self.buffer@,
            ranges: Map::new(
                |id: u32| id < self.slots@.len() && self.slots@[id as int] is Some,
                |id: u32| self.slots@[id as int]->0,
            ),
            order: self.order@,
        }
    }
}

impl ImmediateManager {
    /// The state of the identifier pool.
    pub closed spec fn pool(&self) -> IdPoolModel {
        self.pool@
    }

    /// One slot is kept for every identifier issued so far.
    pub closed spec fn slots_tracked(&self) -> bool {
        self.slots@.len() == self.pool@.current
    }

    /// The model is well-formed and its live identifiers are exactly those
    /// that the pool has outstanding.
    pub open spec fn wf(&self) -> bool {
        &&& self.pool().wf()
        &&& self.slots_tracked()
        &&& self@.wf()
        &&& forall|id: u32| self@.ranges.dom().contains(id) <==> self.pool().is_live(id)
    }

    pub fn new() -> (m: Self)
        ensures
            m.wf(),
            m@.bytes == Seq::<u8>::empty(),
            m@.ranges == Map::<u32, ByteRange>::empty(),
            m@.order == Seq::<u32>::empty(),
            m.pool().current == 0,
            m.pool().available == Seq::<u32>::empty(),
    {
        let m = ImmediateManager {
            pool: IdPool::new(),
            buffer: Vec::new(),
            slots: Vec::new(),
            order: Vec::new(),
        };
        assert(m@.ranges =~= Map::<u32, ByteRange>::empty());
        m
    }

    /// The length of the backing buffer.
    pub fn buffer_len(&self) -> (n: usize)
        ensures
            n == self@.bytes.len(),
    {
        self.buffer.len()
    }

    /// The number of live allocations.
    pub fn len(&self) -> (n: usize)
        ensures
            n == self@.order.len(),
    {
        self.order.len()
    }

    /// The range that the live identifier `id` occupies.
    pub fn range_of(&self, id: InstanceId) -> (r: Option<ByteRange>)
        ensures
            r.is_some() <==> self@.ranges.dom().contains(id.0),
            r matches Some(range) ==> range == self@.ranges[id.0],
    {
        let i = id.0 as usize;
        if i < self.slots.len() {
            self.slots[i]
        } else {
            None
        }
    }

    /// The bytes of the live identifier `id`.
    pub fn get(&self, id: InstanceId) -> (r: Option<&[u8]>)
        requires
            self.wf(),
        ensures
            r.is_some() <==> self@.ranges.dom().contains(id.0),
            r matches Some(bytes) ==> bytes@ == self@.data(id.0),
    {
        match self.range_of(id) {
            Some(range) => {
                proof {
                    self.lemma_range_in_buffer(id.0);
                }
                Some(slice_subrange(self.buffer.as_slice(), range.start, range.end))
            },
            None => None,
        }
    }

    /// Reserves `size` bytes and returns the identifier of the new range.
    /// The range is placed first-fit; the buffer grows, zero-filled, when no
    /// gap is large enough, and bytes already stored keep their place.
    pub fn add(&mut self, size: usize) -> (id: InstanceId)
        requires
            old(self).wf(),
            old(self)@.order.len() < u32::MAX,
            2 * (old(self)@.bytes.len() + size) <= usize::MAX,
        ensures
            final(self).wf(),
            id.0 == old(self).pool().next_id(),
            !old(self)@.ranges.dom().contains(id.0),
            final(self).pool() == old(self).pool().after_issue(),
            0 <= old(self)@.offset_for(size as int) <= old(self)@.bytes.len(),
            old(self)@.offset_for(size as int) + size <= final(self)@.bytes.len(),
            final(self)@ == old(self)@.allocate(id.0, size as int, final(self)@.bytes),
            final(self)@.order.len() == old(self)@.order.len() + 1,
            final(self)@.bytes.len() == grown_len(
                old(self)@.bytes.len() as int,
                old(self)@.offset_for(size as int) + size,
            ),
            final(self)@.bytes.subrange(0, old(self)@.bytes.len() as int) == old(self)@.bytes,
            forall|i: int|
                old(self)@.bytes.len() <= i < final(self)@.bytes.len() ==> final(self)@.bytes[i]
                    == 0,
    {
        let ghost pre = *self;
        let ghost layout = self@.layout();
        proof {
            self.pool().lemma_can_issue(self@.order);
        }
        let mut cursor: usize = 0;
        let mut i: usize = 0;
        while i < self.order.len()
            invariant_except_break
                forall|j: int| 0 <= j < i ==> gap_before(layout, 0, j) < size,
            invariant
                *self == pre,
                pre.wf(),
                layout == pre@.layout(),
                0 <= i <= self.order@.len(),
                cursor == if i == 0 {
                    0
                } else {
                    layout[i - 1].end as int
                },
                cursor <= self.buffer@.len(),
            ensures
                0 <= i <= self.order@.len(),
                forall|j: int| 0 <= j < i ==> gap_before(layout, 0, j) < size,
                i < self.order@.len() ==> gap_before(layout, 0, i as int) >= size,
            decreases self.order@.len() - i,
        {
            let key = self.order[i] as usize;
            proof {
                assert(self@.order.contains(self.order@[i as int]));
                assert(self@.ranges.dom().contains(self.order@[i as int]));
                assert(layout[i as int] == self@.ranges[self.order@[i as int]]);
                assert(layout[i as int].start <= layout[i as int].end);
                if i > 0 {
                    assert(layout[i - 1].end <= layout[i as int].start);
                }
            }
            let range = match self.slots[key] {
                Some(r) => r,
                None => unreached(),
            };
            if range.start - cursor >= size {
                break ;
            }
            cursor = range.end;
            i += 1;
        }
        proof {
            lemma_fit_unique(layout, 0, size as int, i as int);
        }
        let end = cursor + size;
        let len = self.buffer.len();
        if end > len {
            let doubled = if len * 2 >= end * 2 {
                len * 2
            } else {
                end * 2
            };
            let new_len = if doubled >= MIN_BUFFER_LEN {
                doubled
            } else {
                MIN_BUFFER_LEN
            };
            self.buffer.resize(new_len, 0u8);
        }
        let id = self.pool.get_next();
        let range = ByteRange { start: cursor, end };
        let key = id.0 as usize;
        if key < self.slots.len() {
            self.slots[key] = Some(range);
        } else {
            self.slots.push(Some(range));
        }
        self.order.insert(i, id.0);
        proof {
            let m0 = pre@;
            let m1 = self@;
            assert(!m0.ranges.dom().contains(id.0));
            assert(m1.ranges =~= m0.ranges.insert(id.0, range));
            assert(m1.order == m0.order.insert(i as int, id.0));
            assert(m1.bytes.subrange(0, m0.bytes.len() as int) =~= m0.bytes);
            lemma_allocate_wf(m0, id.0, size as int, m1.bytes);
            assert(m1 == m0.allocate(id.0, size as int, m1.bytes));
            assert forall|x: u32| m1.ranges.dom().contains(x) <==> self.pool().is_live(x) by {
                assert(self.pool().live().contains(x) <==> pre.pool().live().insert(id.0).contains(
                    x,
                ));
            }
        }
        id
    }

    /// Releases the range of `id` for reuse and gives the identifier back
    /// to the pool. Returns whether `id` was live; otherwise nothing changes.
    /// The buffer keeps its length and contents.
    pub fn remove(&mut self, id: InstanceId) -> (removed: bool)
        requires
            old(self).wf(),
        ensures
            final(self).wf(),
            removed == old(self)@.ranges.dom().contains(id.0),
            removed ==> final(self)@ == old(self)@.release(id.0),
            removed ==> final(self)@.order.len() == old(self)@.order.len() - 1,
            removed ==> final(self).pool() == old(self).pool().after_free(id.0),
            !removed ==> final(self)@ == old(self)@ && final(self).pool() == old(self).pool(),
    {
        let ghost pre = *self;
        if self.range_of(id).is_none() {
            return false;
        }
        proof {
            lemma_release_wf(self@, id.0);
        }
        let mut i: usize = 0;
        while i < self.order.len() && self.order[i] != id.0
            invariant
                *self == pre,
                0 <= i <= self.order@.len(),
                self.order@.contains(id.0),
                forall|j: int| 0 <= j < i ==> self.order@[j] != id.0,
            decreases self.order@.len() - i,
        {
            i += 1;
        }
        proof {
            let k = self@.order.index_of(id.0);
            assert(i < self.order@.len()) by {
                if i >= self.order@.len() {
                    assert(self.order@[k] == id.0);
                }
            }
            assert(k == i as int);
        }
        let _ = self.order.remove(i);
        self.slots[id.0 as usize] = None;
        self.pool.free(id);
        proof {
            let m0 = pre@;
            let m1 = self@;
            assert(m1.ranges =~= m0.ranges.remove(id.0));
            assert(m1 == m0.release(id.0));
            assert forall|x: u32| m1.ranges.dom().contains(x) <==> self.pool().is_live(x) by {
                assert(self.pool().live().contains(x) <==> pre.pool().live().remove(id.0).contains(
                    x,
                ));
            }
        }
        true
    }

    /// Mutable access to the bytes of the live identifier `id`. Whatever is
    /// written through the slice replaces exactly those bytes of the buffer.
    pub fn get_mut(&mut self, id: InstanceId) -> (r: Option<&mut [u8]>)
        requires
            old(self).wf(),
        ensures
            r.is_some() <==> old(self)@.ranges.dom().contains(id.0),
            r matches Some(bytes) ==> {
                let range = old(self)@.ranges[id.0];
                &&& bytes@ == old(self)@.data(id.0)
                &&& final(self)@.bytes == old(self)@.bytes.subrange(0, range.start as int)
                    + final(bytes)@ + old(self)@.bytes.subrange(
                    range.end as int,
                    old(self)@.bytes.len() as int,
                )
                &&& final(self)@.ranges == old(self)@.ranges
                &&& final(self)@.order == old(self)@.order
                &&& final(self).pool() == old(self).pool()
                &&& final(bytes)@.len() == bytes@.len() ==> final(self).wf()
            },
            r is None ==> *final(self) == *old(self),
    {
        match self.range_of(id) {
            Some(range) => {
                proof {
                    self.lemma_range_in_buffer(id.0);
                }
                let whole = self.buffer.as_mut_slice();
                let (_, rest) = whole.split_at_mut(range.start);
                let (bytes, _) = rest.split_at_mut(range.end - range.start);
                Some(bytes)
            },
            None => None,
        }
    }

    /// Every live range is well-formed and lies inside the buffer.
    pub proof fn lemma_range_in_buffer(&self, id: u32)
        requires
            self.wf(),
            self@.ranges.dom().contains(id),
        ensures
            self@.ranges[id].start <= self@.ranges[id].end <= self@.bytes.len(),
    {
        let m = self@;
        assert(m.order.contains(id));
        let i = choose|i: int| 0 <= i < m.order.len() && m.order[i] == id;
        assert(m.layout()[i] == m.ranges[id]);
    }
}

} // verus!
