//! Sorted sequences of identifiers kept in a `sorted_vec::SortedVec`.
//!
//! The container itself is opaque to the verifier. Its contents are named by
//! [`sorted_items`], and every operation the library performs on it goes
//! through one of the functions below, whose contracts are taken on trust.

use sorted_vec::SortedVec;
use vstd::prelude::*;

verus! {

/// `sorted_vec::SortedVec`, declared as an opaque type: values of it are
/// carried around, and nothing is known of them but what the functions
/// below state.
#[verifier::external_type_specification]
#[verifier::external_body]
#[verifier::reject_recursive_types(T)]
pub struct ExSortedVec<T: Ord>(SortedVec<T>);

/// The elements held by a sorted vector, in storage order.
pub uninterp spec fn sorted_items(v: SortedVec<u32>) -> Seq<u32>;

/// Every element is at most its successors.
pub open spec fn ascending(s: Seq<u32>) -> bool {
    forall|i: int, j: int| 0 <= i <= j < s.len() ==> s[i] <= s[j]
}

/// Every element is below its successors: ascending and free of duplicates.
pub open spec fn strictly_ascending(s: Seq<u32>) -> bool {
    forall|i: int, j: int| 0 <= i < j < s.len() ==> s[i] < s[j]
}

/// What a binary search for `x` in the ascending sequence `s` may answer:
/// `Ok` with a position that holds `x`, or `Err` with the position at which
/// `x` would have to be inserted, when `x` does not occur.
pub open spec fn search_result(s: Seq<u32>, x: u32, r: Result<usize, usize>) -> bool {
    match r {
        Ok(i) => i < s.len() && s[i as int] == x,
        Err(i) => {
            &&& i <= s.len()
            &&& forall|j: int| 0 <= j < i ==> s[j] < x
            &&& forall|j: int| i <= j < s.len() ==> x < s[j]
        },
    }
}

/// `SortedVec::new`: the new vector holds nothing.
#[verifier::external_body]
pub(crate) fn sorted_new() -> (v: SortedVec<u32>)
    ensures
        sorted_items(v) == Seq::<u32>::empty(),
{
    SortedVec::new()
}

/// `SortedVec::insert`: the element is placed at the returned position and
/// the other elements keep their order; an ascending vector stays ascending.
#[verifier::external_body]
pub(crate) fn sorted_insert(v: &mut SortedVec<u32>, x: u32) -> (idx: usize)
    ensures
        idx <= sorted_items(*old(v)).len(),
        sorted_items(*final(v)) == sorted_items(*old(v)).insert(idx as int, x),
        ascending(sorted_items(*old(v))) ==> ascending(sorted_items(*final(v))),
{
    v.insert(x)
}

/// `SortedVec::remove_index`: removes and returns the element at `index`,
/// which must be in bounds; the other elements keep their order.
#[verifier::external_body]
pub(crate) fn sorted_remove_index(v: &mut SortedVec<u32>, index: usize) -> (x: u32)
    requires
        index < sorted_items(*old(v)).len(),
    ensures
        x == sorted_items(*old(v))[index as int],
        sorted_items(*final(v)) == sorted_items(*old(v)).remove(index as int),
{
    v.remove_index(index)
}

/// Binary search through the vector's `Deref` to a slice. On an ascending
/// vector the answer is as [`search_result`] describes.
#[verifier::external_body]
pub(crate) fn sorted_search(v: &SortedVec<u32>, x: u32) -> (r: Result<usize, usize>)
    ensures
        ascending(sorted_items(*v)) ==> search_result(sorted_items(*v), x, r),
{
    v.binary_search(&x)
}

/// Indexing through the vector's `Deref`: the element at `index`, which
/// must be in bounds.
#[verifier::external_body]
pub(crate) fn sorted_get(v: &SortedVec<u32>, index: usize) -> (x: u32)
    requires
        index < sorted_items(*v).len(),
    ensures
        x == sorted_items(*v)[index as int],
{
    v[index]
}

/// Strictly ascending sequences are ascending and free of duplicates.
pub proof fn lemma_strictly_ascending_no_duplicates(s: Seq<u32>)
    requires
        strictly_ascending(s),
    ensures
        ascending(s),
        s.no_duplicates(),
{
    assert forall|i: int, j: int| 0 <= i < s.len() && 0 <= j < s.len() && i != j implies s[i]
        != s[j] by {
        if i < j {
            assert(s[i] < s[j]);
        } else {
            assert(s[j] < s[i]);
        }
    }
}


/// The position that `x` takes in the ascending sequence `s`: behind the
/// elements that are smaller.
pub open spec fn insertion_point(s: Seq<u32>, x: u32) -> int
    decreases s.len(),
{
    if s.len() == 0 {
        0
    } else if s.last() < x {
        s.len() as int
    } else {
        insertion_point(s.drop_last(), x)
    }
}

/// The insertion point parts an ascending sequence into the elements below
/// `x` and those that are not.
pub proof fn lemma_insertion_point(s: Seq<u32>, x: u32)
    requires
        ascending(s),
    ensures
        0 <= insertion_point(s, x) <= s.len(),
        forall|i: int| 0 <= i < insertion_point(s, x) ==> s[i] < x,
        forall|i: int| insertion_point(s, x) <= i < s.len() ==> x <= s[i],
    decreases s.len(),
{
    if s.len() > 0 {
        if s.last() < x {
            assert forall|i: int| 0 <= i < s.len() implies s[i] < x by {
                assert(s[i] <= s[s.len() - 1]);
            }
        } else {
            let t = s.drop_last();
            assert(ascending(t)) by {
                assert forall|i: int, j: int| 0 <= i <= j < t.len() implies t[i] <= t[j] by {
                    assert(s[i] <= s[j]);
                }
            }
            lemma_insertion_point(t, x);
            assert forall|i: int| insertion_point(s, x) <= i < s.len() implies x <= s[i] by {
                if i < t.len() {
                    assert(t[i] == s[i]);
                }
            }
            assert forall|i: int| 0 <= i < insertion_point(s, x) implies s[i] < x by {
                assert(t[i] == s[i]);
            }
        }
    }
}

/// A position that parts an ascending sequence into the elements below
/// `x` and those above it is the insertion point of `x`.
pub proof fn lemma_insertion_point_unique(s: Seq<u32>, x: u32, k: int)
    requires
        ascending(s),
        0 <= k <= s.len(),
        forall|i: int| 0 <= i < k ==> s[i] < x,
        forall|i: int| k <= i < s.len() ==> x <= s[i],
    ensures
        insertion_point(s, x) == k,
{
    lemma_insertion_point(s, x);
    let p = insertion_point(s, x);
    if p < k {
        assert(s[p] < x);
        assert(x <= s[p]);
    } else if k < p {
        assert(s[k] < x);
        assert(x <= s[k]);
    }
}

/// Inserting a new element at its insertion point keeps a strictly
/// ascending sequence strictly ascending and adds exactly that element.
pub proof fn lemma_insert_at_insertion_point(s: Seq<u32>, x: u32)
    requires
        strictly_ascending(s),
        !s.contains(x),
    ensures
        strictly_ascending(s.insert(insertion_point(s, x), x)),
        forall|y: u32| s.insert(insertion_point(s, x), x).contains(y) <==> (s.contains(y) || y == x),
{
    lemma_strictly_ascending_no_duplicates(s);
    lemma_insertion_point(s, x);
    let k = insertion_point(s, x);
    let t = s.insert(k, x);
    assert forall|i: int, j: int| 0 <= i < j < t.len() implies t[i] < t[j] by {
        let i0 = if i < k { i } else { i - 1 };
        let j0 = if j < k { j } else { j - 1 };
        if i == k {
            assert(t[j] == s[j0]);
            assert(x <= s[j0]);
            assert(s.contains(s[j0]));
        } else if j == k {
            assert(t[i] == s[i0]);
        } else {
            assert(t[i] == s[i0] && t[j] == s[j0]);
        }
    }
    assert forall|y: u32| t.contains(y) <==> (s.contains(y) || y == x) by {
        assert(t[k] == x);
        if s.contains(y) {
            let a = choose|a: int| 0 <= a < s.len() && s[a] == y;
            let b = if a < k { a } else { a + 1 };
            assert(t[b] == y);
        }
        if t.contains(y) && y != x {
            let b = choose|b: int| 0 <= b < t.len() && t[b] == y;
            let a = if b < k { b } else { b - 1 };
            assert(s[a] == y);
        }
    }
}

/// Removing one position keeps a strictly ascending sequence strictly
/// ascending and removes exactly the element that stood there.
pub proof fn lemma_remove_keeps_ascending(s: Seq<u32>, k: int)
    requires
        strictly_ascending(s),
        0 <= k < s.len(),
    ensures
        strictly_ascending(s.remove(k)),
        forall|y: u32| s.remove(k).contains(y) <==> (s.contains(y) && y != s[k]),
{
    lemma_strictly_ascending_no_duplicates(s);
    let t = s.remove(k);
    assert forall|i: int, j: int| 0 <= i < j < t.len() implies t[i] < t[j] by {
        let i0 = if i < k { i } else { i + 1 };
        let j0 = if j < k { j } else { j + 1 };
        assert(t[i] == s[i0] && t[j] == s[j0]);
    }
    assert forall|y: u32| t.contains(y) <==> (s.contains(y) && y != s[k]) by {
        if s.contains(y) && y != s[k] {
            let a = choose|a: int| 0 <= a < s.len() && s[a] == y;
            let b = if a < k { a } else { a - 1 };
            assert(t[b] == y);
        }
        if t.contains(y) {
            let b = choose|b: int| 0 <= b < t.len() && t[b] == y;
            let a = if b < k { b } else { b + 1 };
            assert(s[a] == y);
        }
    }
}

} // verus!
