//! Volumes: a number or a range after a `Volume` keyword.

use vstd::prelude::*;
use vstd::string::*;
use crate::element::{element_views, Element, ElementKind};
use crate::keyword::KeywordKind;
use crate::parser::episode::{
    parse_multi_episode_range, parse_single_episode, range_outcome, single_episode,
    version_element,
};
use crate::parser::discipline::{disciplined, lemma_disciplined_idle, lemma_disciplined_then};
use crate::parser::outcome::{Outcome, each_index, element_with, extend, new_element_with, push_element};
use crate::token::{claim, claim_at, positions_are_indices, views, Token, TokenView};
use crate::utils::{find_next_token, next_token, TokenTest};

verus! {

/// The token at `i` carries the `Volume` keyword, and the next token that
/// is not a delimiter is free and a range or a single number: both tokens
/// are claimed, and the volumes are emitted with their release versions.
pub open spec fn volume_step() -> spec_fn(Seq<TokenView>, int) -> Option<Outcome> {
    |tokens: Seq<TokenView>, i: int|
        if tokens[i].has_keyword(KeywordKind::Volume) && (next_token(
            tokens,
            i + 1,
            TokenTest::NotDelimiter,
        ) matches Some(n) && tokens[n].is_free()) {
            let n = next_token(tokens, i + 1, TokenTest::NotDelimiter).unwrap();
            match range_outcome(tokens, n, ElementKind::Volume) {
                Some(o) => Some(Outcome { tokens: claim_at(o.tokens, i), emitted: o.emitted }),
                None => match single_episode(tokens[n].value) {
                    Some(p) => Some(
                        Outcome {
                            tokens: claim_at(claim_at(tokens, i), n),
                            emitted: seq![element_with(ElementKind::Volume, p.0, tokens[n])]
                                + version_element(p.1, tokens[n]),
                        },
                    ),
                    None => None,
                },
            }
        } else {
            None
        }
}

/// What the search for volumes does: every `Volume` keyword is looked at
/// in turn.
pub open spec fn volume(tokens: Seq<TokenView>) -> Outcome {
    each_index(tokens, volume_step(), tokens.len() as int)
}

/// Searches the tokens for volumes: after each `Volume` keyword, the next
/// token that is not a delimiter is read, where it is free, as a range of
/// volumes or as one volume with an optional version.
pub fn parse_volume(tokens: &mut [Token], results: &mut Vec<Element>)
    ensures
        final(tokens)@.len() == old(tokens)@.len(),
        views(final(tokens)@) == volume(views(old(tokens)@)).tokens,
        element_views(final(results)@) == element_views(old(results)@) + volume(
            views(old(tokens)@),
        ).emitted,
        disciplined(
            views(old(tokens)@),
            volume(views(old(tokens)@)).tokens,
            volume(views(old(tokens)@)).emitted,
        ),
{
    let n = tokens.len();
    let ghost before = views(tokens@);
    let ghost step = volume_step();
    let ghost mut o = Outcome { tokens: before, emitted: Seq::empty() };
    proof {
        lemma_disciplined_idle(before);
        assert(element_views(results@) =~= element_views(old(results)@) + o.emitted);
    }
    let mut i: usize = 0;
    while i < n
        invariant
            i <= n == tokens@.len(),
            n == before.len(),
            step == volume_step(),
            o == each_index(before, step, i as int),
            views(tokens@) == o.tokens,
            element_views(results@) == element_views(old(results)@) + o.emitted,
            disciplined(before, o.tokens, o.emitted),
        decreases n - i,
    {
        let ghost current = o;
        let ghost so_far = element_views(results@);
        if tokens[i].has_keyword(KeywordKind::Volume) {
            if let Some(next) = find_next_token(tokens, i, true, TokenTest::NotDelimiter) {
                if tokens[next].is_free() {
                    let mut found = parse_multi_episode_range(
                        tokens,
                        next,
                        results,
                        ElementKind::Volume,
                    );
                    if !found {
                        if let Some((prefix, suffix)) = parse_single_episode(tokens[next].value()) {
                            push_element(
                                results,
                                new_element_with(ElementKind::Volume, prefix, &tokens[next]),
                            );
                            if suffix.unicode_len() > 0 {
                                push_element(
                                    results,
                                    new_element_with(
                                        ElementKind::ReleaseVersion,
                                        suffix,
                                        &tokens[next],
                                    ),
                                );
                            }
                            claim(tokens, next);
                            found = true;
                        }
                    }
                    if found {
                        claim(tokens, i);
                        proof {
                            let s = step(current.tokens, i as int).unwrap();
                            o = extend(current, Some(s));
                            assert(views(tokens@) =~= s.tokens);
                            assert(element_views(results@) =~= so_far + s.emitted);
                            assert(element_views(results@) =~= element_views(old(results)@)
                                + o.emitted);
                            assert(disciplined(current.tokens, o.tokens, s.emitted)) by {
                                if positions_are_indices(current.tokens) {
                                    assert(current.tokens[next as int].position == next);
                                }
                            }
                            lemma_disciplined_then(
                                before,
                                current.tokens,
                                o.tokens,
                                current.emitted,
                                s.emitted,
                            );
                        }
                    }
                }
            }
        }
        i += 1;
    }
}

} // verus!
