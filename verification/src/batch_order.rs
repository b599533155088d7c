//! The order in which draw calls are batched, as executable code.

use crate::renderpass::{
    lemma_lex_le_common_prefix, stably_sorted, tail_from, tail_index, DrawCall,
};
use std::cmp::Ordering;
use vstd::prelude::*;

verus! {

/// Compares two draw calls in the batching order: by pipeline identifier,
/// then lexicographically by bind-group identifiers.
pub fn compare_draw_calls<P, B>(a: &DrawCall<P, B>, b: &DrawCall<P, B>) -> (r: Ordering)
    ensures
        r is Less <==> a@.key_le(b@) && !b@.key_le(a@),
        r is Equal <==> a@.key_eq(b@),
        r is Greater <==> b@.key_le(a@) && !a@.key_le(b@),
{
    let pa = a.render_pipeline_handle.id().0;
    let pb = b.render_pipeline_handle.id().0;
    if pa < pb {
        return Ordering::Less;
    }
    if pa > pb {
        return Ordering::Greater;
    }
    let x = &a.shader_data.bind_groups;
    let y = &b.shader_data.bind_groups;
    let ghost xs = a@.bind_groups;
    let ghost ys = b@.bind_groups;
    let mut i: usize = 0;
    while i < x.len() && i < y.len()
        invariant
            a@.pipeline == b@.pipeline,
            xs == a@.bind_groups,
            ys == b@.bind_groups,
            x@.len() == xs.len(),
            y@.len() == ys.len(),
            forall|j: int| 0 <= j < xs.len() ==> xs[j] == x@[j]@,
            forall|j: int| 0 <= j < ys.len() ==> ys[j] == y@[j]@,
            i <= x@.len(),
            i <= y@.len(),
            forall|j: int| 0 <= j < i ==> xs[j] == ys[j],
        decreases x@.len() - i,
    {
        let u = x[i].id().0;
        let v = y[i].id().0;
        if u != v {
            proof {
                lemma_lex_le_common_prefix(xs, ys, tail_index(i));
                lemma_lex_le_common_prefix(ys, xs, tail_index(i));
                assert(tail_from(xs, i)[0] == u);
                assert(tail_from(ys, i)[0] == v);
                assert(xs[tail_index(i)] != ys[tail_index(i)]);
            }
            if u < v {
                return Ordering::Less;
            } else {
                return Ordering::Greater;
            }
        }
        i += 1;
    }
    proof {
        lemma_lex_le_common_prefix(xs, ys, tail_index(i));
        lemma_lex_le_common_prefix(ys, xs, tail_index(i));
        if x@.len() == y@.len() {
            assert(xs =~= ys);
            assert(tail_from(xs, i).len() == 0);
        } else if x@.len() < y@.len() {
            assert(tail_from(xs, i).len() == 0);
            assert(tail_from(ys, i).len() > 0);
        } else {
            assert(tail_from(ys, i).len() == 0);
            assert(tail_from(xs, i).len() > 0);
        }
    }
    if x.len() < y.len() {
        Ordering::Less
    } else if x.len() > y.len() {
        Ordering::Greater
    } else {
        Ordering::Equal
    }
}

/// `sort_by` of the standard library with [`compare_draw_calls`] as the
/// comparison, which is a total preorder: the vector is reordered into
/// ascending batching order, and draw calls that compare equal keep their
/// relative order. This contract is taken on trust.
#[verifier::external_body]
pub(crate) fn sort_draw_calls<P, B>(calls: &mut Vec<DrawCall<P, B>>)
    ensures
        stably_sorted(old(calls)@, final(calls)@),
{
    calls.sort_by(|a, b| compare_draw_calls(a, b));
}

} // verus!
