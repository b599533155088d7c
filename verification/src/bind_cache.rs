//! The bind groups currently bound, one per slot, kept in a
//! `smallvec::SmallVec` that needs no allocation for the usual slot count.
//!
//! The container is opaque to the verifier. Its contents are named by
//! [`cache_slots`], and the functions below, whose contracts are taken on
//! trust, are the only code that touches it.

use smallvec::SmallVec;
use vstd::prelude::*;

verus! {

/// For each slot, the identifier of the bind group bound there, if known.
#[verifier::external_body]
pub struct BindGroupCache {
    slots: SmallVec<[Option<u32>; 3]>,
}

/// The slots of the cache in order.
pub uninterp spec fn cache_slots(c: BindGroupCache) -> Seq<Option<u32>>;

/// `SmallVec::from_elem`: a cache of `n` slots that all hold `value`.
#[verifier::external_body]
pub(crate) fn cache_filled(value: Option<u32>, n: usize) -> (c: BindGroupCache)
    ensures
        cache_slots(c) == Seq::new(n as nat, |i: int| value),
{
    BindGroupCache { slots: SmallVec::from_elem(value, n) }
}

/// `SmallVec::len`: the number of slots.
#[verifier::external_body]
pub(crate) fn cache_len(c: &BindGroupCache) -> (n: usize)
    ensures
        n == cache_slots(*c).len(),
{
    c.slots.len()
}

/// Indexing a `SmallVec`: the content of slot `i`, which must exist.
#[verifier::external_body]
pub(crate) fn cache_get(c: &BindGroupCache, i: usize) -> (value: Option<u32>)
    requires
        i < cache_slots(*c).len(),
    ensures
        value == cache_slots(*c)[i as int],
{
    c.slots[i]
}

/// Assignment through `IndexMut` of a `SmallVec`: slot `i`, which must
/// exist, takes `value`; the other slots stay as they are.
#[verifier::external_body]
pub(crate) fn cache_set(c: &mut BindGroupCache, i: usize, value: Option<u32>)
    requires
        i < cache_slots(*old(c)).len(),
    ensures
        cache_slots(*final(c)) == cache_slots(*old(c)).update(i as int, value),
{
    c.slots[i] = value;
}

/// `fill` on the slice of a `SmallVec`: every slot takes `value`; the
/// number of slots stays.
#[verifier::external_body]
pub(crate) fn cache_fill(c: &mut BindGroupCache, value: Option<u32>)
    ensures
        cache_slots(*final(c)) == Seq::new(cache_slots(*old(c)).len(), |i: int| value),
{
    c.slots.fill(value);
}

} // verus!
