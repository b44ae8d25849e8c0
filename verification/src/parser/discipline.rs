//! The claim discipline: extractors only claim tokens, and read elements
//! only from tokens that nobody has claimed.

use vstd::prelude::*;
use crate::element::{ElementKind, ElementView};
use crate::parser::keywords::element_kind_of;
use crate::parser::video_resolution::bare_number;
use crate::token::{claims_only, positions_are_indices, TokenView};

verus! {

/// The element was read from a token that is claimed.
pub open spec fn claimed_source(tokens: Seq<TokenView>, e: ElementView) -> bool {
    e.position < tokens.len() && tokens[e.position as int].is_identified
}

/// The element was read from a token that is not claimed.
pub open spec fn unclaimed_source(tokens: Seq<TokenView>, e: ElementView) -> bool {
    e.position < tokens.len() && !tokens[e.position as int].is_identified
}

/// The claim discipline: an extractor only claims tokens, and, where every
/// token's position is its index, each element it emits was read from a
/// token that was not claimed before and is claimed after.
pub open spec fn disciplined(
    before: Seq<TokenView>,
    after: Seq<TokenView>,
    emitted: Seq<ElementView>,
) -> bool {
    &&& claims_only(before, after)
    &&& positions_are_indices(before) ==> forall|k: int|
        0 <= k < emitted.len() ==> unclaimed_source(before, #[trigger] emitted[k])
            && claimed_source(after, emitted[k])
}

/// An element emitted without its token being claimed: one read from an
/// ambiguous keyword outside brackets.
pub open spec fn unclaimed_keyword(tokens: Seq<TokenView>, e: ElementView) -> bool {
    &&& e.position < tokens.len()
    &&& tokens[e.position as int].keyword matches Some(k) && k.ambiguous
        && !tokens[e.position as int].is_enclosed && element_kind_of(k.kind) == Some(
        e.kind,
    )
}

/// An element emitted without its token being claimed: a resolution read
/// from the bare number 1080 or 720.
pub open spec fn bare_resolution(tokens: Seq<TokenView>, e: ElementView) -> bool {
    &&& e.position < tokens.len()
    &&& e.kind == ElementKind::VideoResolution
    &&& bare_number(tokens[e.position as int])
}

/// The token that the element was read from is claimed, or the element is
/// of one of the two kinds that leave their token unclaimed.
pub open spec fn accounted(tokens: Seq<TokenView>, e: ElementView) -> bool {
    claimed_source(tokens, e) || unclaimed_keyword(tokens, e) || bare_resolution(tokens, e)
}

/// The claim discipline with its two exceptions: an extractor only claims
/// tokens, and, where every token's position is its index, each element it
/// emits was read from a token that was not claimed before, and that is
/// claimed after unless the element is one of the two kinds that leave
/// their token unclaimed.
pub open spec fn sourced(
    before: Seq<TokenView>,
    after: Seq<TokenView>,
    emitted: Seq<ElementView>,
) -> bool {
    &&& claims_only(before, after)
    &&& positions_are_indices(before) ==> forall|k: int|
        0 <= k < emitted.len() ==> unclaimed_source(before, #[trigger] emitted[k])
            && accounted(after, emitted[k])
}

/// Claiming only claims.
pub proof fn lemma_claims_only_then(a: Seq<TokenView>, b: Seq<TokenView>, c: Seq<TokenView>)
    requires
        claims_only(a, b),
        claims_only(b, c),
    ensures
        claims_only(a, c),
        positions_are_indices(a) ==> positions_are_indices(b),
{
    assert forall|i: int| 0 <= i < a.len() implies #[trigger] c[i] == a[i] || c[i]
        == a[i].claimed() by {
        assert(b[i] == a[i] || b[i] == a[i].claimed());
        assert(c[i] == b[i] || c[i] == b[i].claimed());
    }
    if positions_are_indices(a) {
        assert forall|i: int| 0 <= i < b.len() implies (#[trigger] b[i]).position == i by {
            assert(b[i] == a[i] || b[i] == a[i].claimed());
            assert(a[i].position == i);
        }
    }
}

/// Two disciplined steps in a row are one disciplined step.
pub proof fn lemma_disciplined_then(
    a: Seq<TokenView>,
    b: Seq<TokenView>,
    c: Seq<TokenView>,
    first: Seq<ElementView>,
    second: Seq<ElementView>,
)
    requires
        disciplined(a, b, first),
        disciplined(b, c, second),
    ensures
        disciplined(a, c, first + second),
{
    lemma_claims_only_then(a, b, c);
    if positions_are_indices(a) {
        let all = first + second;
        assert forall|k: int| 0 <= k < all.len() implies unclaimed_source(a, #[trigger] all[k])
            && claimed_source(c, all[k]) by {
            if k < first.len() {
                let e = first[k];
                assert(all[k] == e);
                assert(unclaimed_source(a, e) && claimed_source(b, e));
                let p = e.position as int;
                assert(c[p] == b[p] || c[p] == b[p].claimed());
            } else {
                let e = second[k - first.len()];
                assert(all[k] == e);
                assert(unclaimed_source(b, e) && claimed_source(c, e));
                let p = e.position as int;
                assert(b[p] == a[p] || b[p] == a[p].claimed());
            }
        }
    }
}

/// Doing nothing is disciplined.
pub proof fn lemma_disciplined_idle(a: Seq<TokenView>)
    ensures
        disciplined(a, a, Seq::empty()),
{
}

/// Two steps in a row that keep the discipline with its exceptions are one
/// such step.
pub proof fn lemma_sourced_then(
    a: Seq<TokenView>,
    b: Seq<TokenView>,
    c: Seq<TokenView>,
    first: Seq<ElementView>,
    second: Seq<ElementView>,
)
    requires
        sourced(a, b, first),
        sourced(b, c, second),
    ensures
        sourced(a, c, first + second),
{
    lemma_claims_only_then(a, b, c);
    if positions_are_indices(a) {
        let all = first + second;
        assert forall|k: int| 0 <= k < all.len() implies unclaimed_source(a, #[trigger] all[k])
            && accounted(c, all[k]) by {
            if k < first.len() {
                let e = first[k];
                assert(all[k] == e);
                let p = e.position as int;
                assert(c[p] == b[p] || c[p] == b[p].claimed());
            } else {
                let e = second[k - first.len()];
                assert(all[k] == e);
                let p = e.position as int;
                assert(b[p] == a[p] || b[p] == a[p].claimed());
            }
        }
    }
}

} // verus!
