//! The order of the results: by position, elements of one position in
//! the order in which they were found.

use vstd::prelude::*;
use crate::element::{element_views, Element, ElementView};

verus! {

/// `s` with `e` put after the last element whose position is not greater
/// than that of `e`, where `s` is in order.
pub open spec fn insert_by_position(s: Seq<ElementView>, e: ElementView) -> Seq<ElementView>
    decreases s.len(),
{
    if s.len() == 0 {
        seq![e]
    } else if s.last().position <= e.position {
        s.push(e)
    } else {
        insert_by_position(s.drop_last(), e).push(s.last())
    }
}

/// The elements in the order of their positions; elements of one position
/// keep the order they have in `s`.
pub open spec fn sort_by_position(s: Seq<ElementView>) -> Seq<ElementView>
    decreases s.len(),
{
    if s.len() == 0 {
        Seq::empty()
    } else {
        insert_by_position(sort_by_position(s.drop_last()), s.last())
    }
}

/// No element stands before one of a smaller position.
pub open spec fn sorted_by_position(s: Seq<ElementView>) -> bool {
    forall|i: int, j: int| 0 <= i < j < s.len() ==> s[i].position <= s[j].position
}

/// Every element of `a` is an element of `b`.
pub open spec fn all_among(a: Seq<ElementView>, b: Seq<ElementView>) -> bool {
    forall|k: int| 0 <= k < a.len() ==> b.contains(#[trigger] a[k])
}

/// Where `j` is the place that the order asks for, `insert_by_position`
/// puts the element there.
pub proof fn lemma_insert_at(s: Seq<ElementView>, e: ElementView, j: int)
    requires
        0 <= j <= s.len(),
        forall|k: int| j <= k < s.len() ==> (#[trigger] s[k]).position > e.position,
        j > 0 ==> s[j - 1].position <= e.position,
    ensures
        insert_by_position(s, e) == s.insert(j, e),
    decreases s.len(),
{
    if s.len() == 0 {
        assert(s.insert(j, e) =~= seq![e]);
    } else if j == s.len() {
        assert(s.insert(j, e) =~= s.push(e));
    } else {
        assert(s[s.len() - 1].position > e.position);
        lemma_insert_at(s.drop_last(), e, j);
        assert(s.drop_last().insert(j, e).push(s.last()) =~= s.insert(j, e));
    }
}

/// Sorting keeps the number of elements, puts them in order, and neither
/// adds an element nor loses one.
pub proof fn lemma_sort_by_position(s: Seq<ElementView>)
    ensures
        sort_by_position(s).len() == s.len(),
        sorted_by_position(sort_by_position(s)),
        all_among(sort_by_position(s), s),
        all_among(s, sort_by_position(s)),
    decreases s.len(),
{
    if s.len() > 0 {
        let rest = s.drop_last();
        let e = s.last();
        lemma_sort_by_position(rest);
        let sorted = sort_by_position(rest);
        let j = insertion_index(sorted, e, sorted.len() as int);
        lemma_insertion_index(sorted, e, sorted.len() as int);
        lemma_insert_at(sorted, e, j);
        let after = sorted.insert(j, e);
        assert(sorted_by_position(after)) by {
            assert forall|a: int, b: int| 0 <= a < b < after.len() implies after[a].position
                <= after[b].position by {
                if b < j {
                } else if b == j {
                    if a < j && j > 0 {
                        assert(sorted[a].position <= sorted[j - 1].position);
                    }
                } else {
                    if a < j {
                        assert(sorted[b - 1].position > e.position);
                        if j > 0 {
                            assert(sorted[a].position <= sorted[j - 1].position);
                        }
                    } else if a == j {
                        assert(sorted[b - 1].position > e.position);
                    } else {
                        assert(sorted[a - 1].position <= sorted[b - 1].position);
                    }
                }
            }
        }
        assert forall|k: int| 0 <= k < after.len() implies s.contains(#[trigger] after[k]) by {
            if k == j {
                assert(s[s.len() - 1] == e);
            } else {
                let x = if k < j {
                    sorted[k]
                } else {
                    sorted[k - 1]
                };
                assert(rest.contains(x));
                let m = choose|m: int| 0 <= m < rest.len() && rest[m] == x;
                assert(s[m] == x);
            }
        }
        assert forall|k: int| 0 <= k < s.len() implies after.contains(#[trigger] s[k]) by {
            if k == s.len() - 1 {
                assert(after[j] == e);
            } else {
                assert(rest[k] == s[k]);
                assert(sorted.contains(rest[k]));
                let m = choose|m: int| 0 <= m < sorted.len() && sorted[m] == rest[k];
                if m < j {
                    assert(after[m] == s[k]);
                } else {
                    assert(after[m + 1] == s[k]);
                }
            }
        }
    }
}

/// The place in the sorted `s` for `e`, looked for from `n` downwards.
pub open spec fn insertion_index(s: Seq<ElementView>, e: ElementView, n: int) -> int
    decreases n,
{
    if n <= 0 {
        0
    } else if s[n - 1].position <= e.position {
        n
    } else {
        insertion_index(s, e, n - 1)
    }
}

/// The place that `insertion_index` finds is the place the order asks for.
pub proof fn lemma_insertion_index(s: Seq<ElementView>, e: ElementView, n: int)
    requires
        0 <= n <= s.len(),
        forall|k: int| n <= k < s.len() ==> (#[trigger] s[k]).position > e.position,
    ensures
        0 <= insertion_index(s, e, n) <= n,
        forall|k: int|
            insertion_index(s, e, n) <= k < s.len() ==> (#[trigger] s[k]).position > e.position,
        insertion_index(s, e, n) > 0 ==> s[insertion_index(s, e, n) - 1].position <= e.position,
    decreases n,
{
    if n > 0 && s[n - 1].position > e.position {
        lemma_insertion_index(s, e, n - 1);
    }
}

/// Sorts the elements by position. Elements of one position keep their
/// order.
pub fn sort_elements(results: Vec<Element>) -> (sorted: Vec<Element>)
    ensures
        element_views(sorted@) == sort_by_position(element_views(results@)),
        sorted_by_position(element_views(sorted@)),
        sorted@.len() == results@.len(),
{
    let ghost unsorted = element_views(results@);
    let mut results = results;
    let mut sorted: Vec<Element> = Vec::new();
    let ghost mut done: int = 0;
    proof {
        assert(unsorted.take(0) =~= Seq::empty());
        assert(element_views(results@).skip(0) =~= unsorted);
    }
    while results.len() > 0
        invariant
            0 <= done <= unsorted.len(),
            element_views(results@) == unsorted.skip(done),
            element_views(sorted@) == sort_by_position(unsorted.take(done)),
        decreases results@.len(),
    {
        let ghost before = element_views(sorted@);
        let ghost rest = element_views(results@);
        proof {
            assert(rest.len() == results@.len());
            assert(done < unsorted.len());
            assert(rest[0] == unsorted[done]);
        }
        let element = results.remove(0);
        let mut j: usize = sorted.len();
        while j > 0 && sorted[j - 1].position > element.position
            invariant
                j <= sorted@.len(),
                forall|k: int|
                    j <= k < sorted@.len() ==> (#[trigger] element_views(sorted@)[k]).position
                        > element@.position,
            decreases j,
        {
            j -= 1;
        }
        proof {
            assert(element@ == unsorted[done]);
            lemma_insert_at(before, element@, j as int);
            assert(unsorted.take(done + 1).drop_last() =~= unsorted.take(done));
            assert(unsorted.take(done + 1).last() == unsorted[done]);
        }
        sorted.insert(j, element);
        proof {
            assert(element_views(sorted@) =~= before.insert(j as int, element@));
            assert(element_views(results@) =~= rest.skip(1));
            assert(rest.skip(1) =~= unsorted.skip(done + 1));
            done = done + 1;
        }
    }
    proof {
        assert(unsorted.take(done) =~= unsorted);
        lemma_sort_by_position(unsorted);
    }
    sorted
}

} // verus!
