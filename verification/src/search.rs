//! Least and greatest index of a range at which a predicate holds.

use vstd::prelude::*;

verus! {

/// The least index in `lo..hi` at which `p` holds.
pub open spec fn first_index(lo: int, hi: int, p: spec_fn(int) -> bool) -> Option<int>
    decreases hi - lo,
{
    if lo >= hi {
        None
    } else if p(lo) {
        Some(lo)
    } else {
        first_index(lo + 1, hi, p)
    }
}

/// The greatest index in `lo..hi` at which `p` holds.
pub open spec fn last_index(lo: int, hi: int, p: spec_fn(int) -> bool) -> Option<int>
    decreases hi - lo,
{
    if lo >= hi {
        None
    } else if p(hi - 1) {
        Some(hi - 1)
    } else {
        last_index(lo, hi - 1, p)
    }
}

/// An index given as a machine integer, as a mathematical one.
pub open spec fn index_view(i: Option<usize>) -> Option<int> {
    match i {
        Some(i) => Some(i as int),
        None => None,
    }
}

/// `first_index` returns an index of the range at which `p` holds and before
/// which it does not, and returns nothing only where `p` holds nowhere.
pub proof fn lemma_first_index(lo: int, hi: int, p: spec_fn(int) -> bool)
    ensures
        match first_index(lo, hi, p) {
            Some(k) => lo <= k < hi && p(k) && forall|j: int| lo <= j < k ==> !#[trigger] p(j),
            None => forall|j: int| lo <= j < hi ==> !#[trigger] p(j),
        },
    decreases hi - lo,
{
    if lo < hi && !p(lo) {
        lemma_first_index(lo + 1, hi, p);
    }
}

/// An index at which `p` holds and before which it does not is the first.
pub proof fn lemma_first_index_found(lo: int, hi: int, p: spec_fn(int) -> bool, k: int)
    requires
        lo <= k < hi,
        p(k),
        forall|j: int| lo <= j < k ==> !#[trigger] p(j),
    ensures
        first_index(lo, hi, p) == Some(k),
    decreases hi - lo,
{
    if lo < k {
        assert(!p(lo));
        lemma_first_index_found(lo + 1, hi, p, k);
    }
}

/// Where `p` holds nowhere in the range there is no first index.
pub proof fn lemma_first_index_absent(lo: int, hi: int, p: spec_fn(int) -> bool)
    requires
        forall|j: int| lo <= j < hi ==> !#[trigger] p(j),
    ensures
        first_index(lo, hi, p) is None,
    decreases hi - lo,
{
    if lo < hi {
        assert(!p(lo));
        lemma_first_index_absent(lo + 1, hi, p);
    }
}

/// `last_index` returns an index of the range at which `p` holds and after
/// which it does not, and returns nothing only where `p` holds nowhere.
pub proof fn lemma_last_index(lo: int, hi: int, p: spec_fn(int) -> bool)
    ensures
        match last_index(lo, hi, p) {
            Some(k) => lo <= k < hi && p(k) && forall|j: int| k < j < hi ==> !#[trigger] p(j),
            None => forall|j: int| lo <= j < hi ==> !#[trigger] p(j),
        },
    decreases hi - lo,
{
    if lo < hi && !p(hi - 1) {
        lemma_last_index(lo, hi - 1, p);
    }
}

/// An index at which `p` holds and after which it does not is the last.
pub proof fn lemma_last_index_found(lo: int, hi: int, p: spec_fn(int) -> bool, k: int)
    requires
        lo <= k < hi,
        p(k),
        forall|j: int| k < j < hi ==> !#[trigger] p(j),
    ensures
        last_index(lo, hi, p) == Some(k),
    decreases hi - lo,
{
    if k < hi - 1 {
        assert(!p(hi - 1));
        lemma_last_index_found(lo, hi - 1, p, k);
    }
}

/// Where `p` holds nowhere in the range there is no last index.
pub proof fn lemma_last_index_absent(lo: int, hi: int, p: spec_fn(int) -> bool)
    requires
        forall|j: int| lo <= j < hi ==> !#[trigger] p(j),
    ensures
        last_index(lo, hi, p) is None,
    decreases hi - lo,
{
    if lo < hi {
        assert(!p(hi - 1));
        lemma_last_index_absent(lo, hi - 1, p);
    }
}

} // verus!
