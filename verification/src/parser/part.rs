//! Parts: a number after a `Part` keyword.

use vstd::prelude::*;
use crate::element::{element_views, Element, ElementKind};
use crate::keyword::KeywordKind;
use crate::parser::discipline::{disciplined, lemma_disciplined_idle, lemma_disciplined_then};
use crate::parser::outcome::{Outcome, each_index, element_of, extend, new_element, push_element};
use crate::token::{claim, claim_at, positions_are_indices, views, Token, TokenView};
use crate::utils::{find_next_token, next_token, TokenTest};

verus! {

/// The token at `i` carries the `Part` keyword, and the next token that is
/// not a delimiter is a free number: both are claimed, and the number is
/// emitted.
pub open spec fn part_step() -> spec_fn(Seq<TokenView>, int) -> Option<Outcome> {
    |tokens: Seq<TokenView>, i: int|
        if tokens[i].has_keyword(KeywordKind::Part) && (next_token(
            tokens,
            i + 1,
            TokenTest::NotDelimiter,
        ) matches Some(n) && tokens[n].is_number() && tokens[n].is_free()) {
            let n = next_token(tokens, i + 1, TokenTest::NotDelimiter).unwrap();
            Some(
                Outcome {
                    tokens: claim_at(claim_at(tokens, i), n),
                    emitted: seq![element_of(ElementKind::Part, tokens[n])],
                },
            )
        } else {
            None
        }
}

/// What the search for parts does: every `Part` keyword is looked at in
/// turn.
pub open spec fn part(tokens: Seq<TokenView>) -> Outcome {
    each_index(tokens, part_step(), tokens.len() as int)
}

/// Searches the tokens for parts: after each `Part` keyword, the next token
/// that is not a delimiter is emitted where it is a free number, and both
/// are claimed.
pub fn parse_part(tokens: &mut [Token], results: &mut Vec<Element>)
    ensures
        final(tokens)@.len() == old(tokens)@.len(),
        views(final(tokens)@) == part(views(old(tokens)@)).tokens,
        element_views(final(results)@) == element_views(old(results)@) + part(
            views(old(tokens)@),
        ).emitted,
        disciplined(
            views(old(tokens)@),
            part(views(old(tokens)@)).tokens,
            part(views(old(tokens)@)).emitted,
        ),
{
    let n = tokens.len();
    let ghost before = views(tokens@);
    let ghost step = part_step();
    let ghost mut o = Outcome { tokens: before, emitted: Seq::empty() };
    proof {
        lemma_disciplined_idle(before);
        assert(element_views(results@) =~= element_views(old(results)@) + o.emitted);
    }
    let mut i: usize = 0;
    while i < n
        invariant
            i <= n == tokens@.len(),
            n == before.len(),
            step == part_step(),
            o == each_index(before, step, i as int),
            views(tokens@) == o.tokens,
            element_views(results@) == element_views(old(results)@) + o.emitted,
            disciplined(before, o.tokens, o.emitted),
        decreases n - i,
    {
        let ghost current = o;
        if tokens[i].has_keyword(KeywordKind::Part) {
            if let Some(next) = find_next_token(tokens, i, true, TokenTest::NotDelimiter) {
                if tokens[next].is_number() && tokens[next].is_free() {
                    push_element(results, new_element(ElementKind::Part, &tokens[next]));
                    claim(tokens, i);
                    claim(tokens, next);
                    proof {
                        o = extend(current, step(current.tokens, i as int));
                        let emitted = seq![element_of(ElementKind::Part, current.tokens[next as int])];
                        assert(element_views(results@) =~= element_views(old(results)@)
                            + o.emitted);
                        assert(disciplined(current.tokens, o.tokens, emitted)) by {
                            if positions_are_indices(current.tokens) {
                                assert(current.tokens[next as int].position == next);
                            }
                        }
                        lemma_disciplined_then(
                            before,
                            current.tokens,
                            o.tokens,
                            current.emitted,
                            emitted,
                        );
                    }
                }
            }
        }
        i += 1;
    }
}

} // verus!
