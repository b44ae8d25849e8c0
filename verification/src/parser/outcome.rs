//! What an extractor does, as a value: the tokens it leaves and the
//! elements it emits.

use vstd::prelude::*;
use vstd::slice::slice_subrange;
use vstd::string::*;
use crate::element::{element_option_view, element_views, Element, ElementKind, ElementView};
use crate::search::first_index;
use crate::token::{
    claim_at, claim_range, claim_span, combine_tokens, combined, gathered, views,
    KeepDelimiters, Token, TokenView,
};
use crate::utils::pair_view;

verus! {

/// The element of kind `kind` read from the token `t`: it has the token's
/// text and the token's position.
pub open spec fn element_of(kind: ElementKind, t: TokenView) -> ElementView {
    ElementView { kind, value: t.value, position: t.position }
}

/// The element of kind `kind` with the text `value`, read from the token
/// `t`.
pub open spec fn element_with(kind: ElementKind, value: Seq<char>, t: TokenView) -> ElementView {
    ElementView { kind, value, position: t.position }
}

/// Every element has the position of the token `t`.
pub open spec fn all_from(elements: Seq<ElementView>, t: TokenView) -> bool {
    forall|k: int| 0 <= k < elements.len() ==> (#[trigger] elements[k]).position == t.position
}

/// What an extractor does where it applies: the tokens as it leaves them,
/// and the elements it adds to the results.
pub ghost struct Outcome {
    pub tokens: Seq<TokenView>,
    pub emitted: Seq<ElementView>,
}

/// An extractor that either applies, with the given outcome, or leaves
/// tokens and results as they were.
pub open spec fn settled(
    outcome: Option<Outcome>,
    tokens_before: Seq<TokenView>,
    tokens_after: Seq<TokenView>,
    results_before: Seq<ElementView>,
    results_after: Seq<ElementView>,
) -> bool {
    match outcome {
        Some(o) => tokens_after == o.tokens && results_after == results_before + o.emitted,
        None => tokens_after == tokens_before && results_after == results_before,
    }
}

/// An extractor that either applies, with the given outcome, or leaves
/// tokens and results as they were, and reports in `done` which it was.
pub open spec fn applied(
    outcome: Option<Outcome>,
    done: bool,
    tokens_before: Seq<TokenView>,
    tokens_after: Seq<TokenView>,
    results_before: Seq<ElementView>,
    results_after: Seq<ElementView>,
) -> bool {
    done == (outcome is Some) && settled(
        outcome,
        tokens_before,
        tokens_after,
        results_before,
        results_after,
    )
}

/// The first of two outcomes that there is.
pub open spec fn or_else(first: Option<Outcome>, second: Option<Outcome>) -> Option<Outcome> {
    if first is Some {
        first
    } else {
        second
    }
}

/// The one element that an extractor returns, with the tokens it leaves.
pub open spec fn applied_one(
    outcome: Option<Outcome>,
    r: Option<ElementView>,
    tokens_before: Seq<TokenView>,
    tokens_after: Seq<TokenView>,
) -> bool {
    match outcome {
        Some(o) => tokens_after == o.tokens && (r matches Some(e) && o.emitted == seq![e]),
        None => r is None && tokens_after == tokens_before,
    }
}

/// The outcome at the first index of the tokens that passes `site`.
pub open spec fn at_first(
    tokens: Seq<TokenView>,
    site: spec_fn(int) -> bool,
    outcome: spec_fn(int) -> Outcome,
) -> Option<Outcome> {
    match first_index(0, tokens.len() as int, site) {
        Some(i) => Some(outcome(i)),
        None => None,
    }
}

/// The token at `i` is claimed and emitted as it stands.
pub open spec fn whole_token(tokens: Seq<TokenView>, kind: ElementKind) -> spec_fn(int) -> Outcome {
    |i: int|
        Outcome { tokens: claim_at(tokens, i), emitted: seq![element_of(kind, tokens[i])] }
}

/// Where a run of tokens stops: at the given index, or at the end of the
/// tokens where none is given.
pub open spec fn end_or_len(tokens: Seq<TokenView>, end: Option<int>) -> int {
    match end {
        Some(e) => e,
        None => tokens.len() as int,
    }
}

/// Taking the tokens `range` as one element of kind `kind`: where their
/// combined text is not empty, they are all claimed, and the text is
/// emitted with the position of the first of them.
pub open spec fn span_outcome(
    tokens: Seq<TokenView>,
    range: Option<(int, int)>,
    kind: ElementKind,
    keep: KeepDelimiters,
) -> Option<Outcome> {
    match range {
        Some((a, b)) => {
            let text = combined(tokens.subrange(a, b), keep);
            if text.len() > 0 {
                Some(
                    Outcome {
                        tokens: claim_range(tokens, a, b),
                        emitted: seq![
                            ElementView { kind, value: text, position: tokens[a].position },
                        ],
                    },
                )
            } else {
                None
            }
        },
        None => None,
    }
}

/// Takes the tokens `range` as one element of kind `kind`.
pub(crate) fn take_span(
    tokens: &mut [Token],
    range: Option<(usize, usize)>,
    kind: ElementKind,
    keep: KeepDelimiters,
) -> (r: Option<Element>)
    requires
        range matches Some((a, b)) ==> a <= b <= old(tokens)@.len(),
    ensures
        final(tokens)@.len() == old(tokens)@.len(),
        applied_one(
            span_outcome(views(old(tokens)@), pair_view(range), kind, keep),
            element_option_view(r),
            views(old(tokens)@),
            views(final(tokens)@),
        ),
{
    let (a, b) = match range {
        Some(p) => p,
        None => {
            return None;
        },
    };
    let ghost before = views(tokens@);
    assert(views(tokens@.subrange(a as int, b as int)) =~= before.subrange(a as int, b as int));
    if a >= b {
        assert(before.subrange(a as int, b as int).len() == 0);
        assert(gathered(before.subrange(a as int, b as int), keep, 0).len() == 0);
        return None;
    }
    let value = combine_tokens(slice_subrange(tokens, a, b), keep);
    if value.as_str().unicode_len() == 0 {
        return None;
    }
    let position = tokens[a].position();
    claim_span(tokens, a, b);
    Some(Element { kind, value, position })
}

/// An outcome carried on by what a later step does.
pub open spec fn extend(o: Outcome, step: Option<Outcome>) -> Outcome {
    match step {
        Some(s) => Outcome { tokens: s.tokens, emitted: o.emitted + s.emitted },
        None => o,
    }
}

/// What a pass over the first `n` indices does: `step` says what is done at
/// an index to the tokens as the earlier indices left them.
pub open spec fn each_index(
    tokens: Seq<TokenView>,
    step: spec_fn(Seq<TokenView>, int) -> Option<Outcome>,
    n: int,
) -> Outcome
    decreases n,
{
    if n <= 0 {
        Outcome { tokens, emitted: Seq::empty() }
    } else {
        let o = each_index(tokens, step, n - 1);
        extend(o, step(o.tokens, n - 1))
    }
}

/// Appends elements to the results.
pub(crate) fn append_elements(results: &mut Vec<Element>, elements: Vec<Element>)
    ensures
        element_views(final(results)@) == element_views(old(results)@) + element_views(elements@),
{
    let mut elements = elements;
    let ghost added = elements@;
    results.append(&mut elements);
    assert(element_views(results@) =~= element_views(old(results)@) + element_views(added));
}

/// Appends an element to the results.
pub(crate) fn push_element(results: &mut Vec<Element>, e: Element)
    ensures
        element_views(final(results)@) == element_views(old(results)@).push(e@),
{
    results.push(e);
    assert(element_views(results@) =~= element_views(old(results)@).push(e@));
}

/// An element of kind `kind` with the text and the position of `token`.
pub fn new_element(kind: ElementKind, token: &Token) -> (r: Element)
    ensures
        r@ == element_of(kind, token@),
{
    Element { kind, value: token.value().to_owned(), position: token.position() }
}

/// An element of kind `kind` with the text `value` and the position of
/// `token`.
pub fn new_element_with(kind: ElementKind, value: &str, token: &Token) -> (r: Element)
    ensures
        r@ == element_with(kind, value@, token@),
{
    Element { kind, value: value.to_owned(), position: token.position() }
}

} // verus!
