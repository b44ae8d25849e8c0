//! Video resolutions: `1920x1080`, `1080p`, `720i`, and at last a bare
//! `1080` or `720`.

use vstd::prelude::*;
use crate::element::{contains_kind, element_views, has_element_kind, Element, ElementKind};
use crate::parser::discipline::{lemma_sourced_then, sourced};
use crate::parser::outcome::{Outcome, each_index, element_of, extend, new_element, push_element};
use crate::pattern::{is_match, regex_is_match, VIDEO_RESOLUTION};
use crate::search::{first_index, lemma_first_index_absent, lemma_first_index_found};
use crate::text::equals;
use crate::token::{claim, claim_at, positions_are_indices, views, Token, TokenView};

verus! {

/// The text has the shape of a resolution, by the regular expression for
/// it.
pub open spec fn video_resolution_text(value: Seq<char>) -> bool {
    regex_is_match(VIDEO_RESOLUTION@, value)
}

/// A free token whose text `shaped` says to be a resolution is claimed and
/// emitted.
pub open spec fn shaped_step(tokens: Seq<TokenView>, i: int, shaped: bool) -> Option<Outcome> {
    if 0 <= i < tokens.len() && tokens[i].is_free() && shaped {
        Some(
            Outcome {
                tokens: claim_at(tokens, i),
                emitted: seq![element_of(ElementKind::VideoResolution, tokens[i])],
            },
        )
    } else {
        None
    }
}

/// A free token with the shape of a resolution is claimed and emitted.
pub open spec fn resolution_step() -> spec_fn(Seq<TokenView>, int) -> Option<Outcome> {
    |tokens: Seq<TokenView>, i: int|
        shaped_step(tokens, i, video_resolution_text(tokens[i].value))
}

/// A number that is `1080` or `720`.
pub open spec fn bare_number(t: TokenView) -> bool {
    t.is_number() && (t.value == "1080"@ || t.value == "720"@)
}

/// The token at `i` is free and a bare resolution number.
pub open spec fn bare_site(tokens: Seq<TokenView>) -> spec_fn(int) -> bool {
    |i: int| tokens[i].is_free() && bare_number(tokens[i])
}

/// What the search for resolutions does. Every free token with the shape
/// of a resolution is claimed and emitted. Where there is none, and the
/// results hold no resolution yet (`prior`), the first free token that is
/// the number 1080 or 720 is emitted, and not claimed.
pub open spec fn video_resolution(tokens: Seq<TokenView>, prior: bool) -> Outcome {
    let shaped = each_index(tokens, resolution_step(), tokens.len() as int);
    if shaped.emitted.len() == 0 && !prior {
        match first_index(0, tokens.len() as int, bare_site(shaped.tokens)) {
            Some(i) => Outcome {
                tokens: shaped.tokens,
                emitted: seq![element_of(ElementKind::VideoResolution, shaped.tokens[i])],
            },
            None => shaped,
        }
    } else {
        shaped
    }
}

/// Whether `input` has the shape of a resolution.
fn is_video_resolution(input: &str) -> (r: bool)
    ensures
        r == video_resolution_text(input@),
{
    is_match(VIDEO_RESOLUTION, input)
}

/// Takes the token at `index` for a resolution where it is free and
/// `shaped` says that its text has the shape of one: the token is claimed
/// and emitted.
pub fn take_resolution(
    tokens: &mut [Token],
    index: usize,
    shaped: bool,
    results: &mut Vec<Element>,
) -> (taken: bool)
    ensures
        final(tokens)@.len() == old(tokens)@.len(),
        crate::parser::outcome::applied(
            shaped_step(views(old(tokens)@), index as int, shaped),
            taken,
            views(old(tokens)@),
            views(final(tokens)@),
            element_views(old(results)@),
            element_views(final(results)@),
        ),
{
    if index < tokens.len() && tokens[index].is_free() && shaped {
        push_element(results, new_element(ElementKind::VideoResolution, &tokens[index]));
        claim(tokens, index);
        assert(element_views(results@) =~= element_views(old(results)@) + seq![
            element_of(ElementKind::VideoResolution, views(old(tokens)@)[index as int]),
        ]);
        true
    } else {
        false
    }
}

/// Searches the tokens for video resolutions.
pub fn parse_video_resolution(tokens: &mut [Token], results: &mut Vec<Element>)
    ensures
        final(tokens)@.len() == old(tokens)@.len(),
        views(final(tokens)@) == video_resolution(
            views(old(tokens)@),
            has_element_kind(element_views(old(results)@), ElementKind::VideoResolution),
        ).tokens,
        element_views(final(results)@) == element_views(old(results)@) + video_resolution(
            views(old(tokens)@),
            has_element_kind(element_views(old(results)@), ElementKind::VideoResolution),
        ).emitted,
        sourced(
            views(old(tokens)@),
            video_resolution(
                views(old(tokens)@),
                has_element_kind(element_views(old(results)@), ElementKind::VideoResolution),
            ).tokens,
            video_resolution(
                views(old(tokens)@),
                has_element_kind(element_views(old(results)@), ElementKind::VideoResolution),
            ).emitted,
        ),
{
    let prior = contains_kind(results, ElementKind::VideoResolution);
    let mut found = false;
    let n = tokens.len();
    let ghost before = views(tokens@);
    let ghost step = resolution_step();
    let ghost mut o = Outcome { tokens: before, emitted: Seq::empty() };
    proof {
        assert(element_views(results@) =~= element_views(old(results)@) + o.emitted);
    }
    let mut i: usize = 0;
    while i < n
        invariant
            i <= n == tokens@.len(),
            n == before.len(),
            step == resolution_step(),
            o == each_index(before, step, i as int),
            views(tokens@) == o.tokens,
            element_views(results@) == element_views(old(results)@) + o.emitted,
            sourced(before, o.tokens, o.emitted),
            found == (o.emitted.len() > 0),
        decreases n - i,
    {
        let ghost current = o;
        let shaped = tokens[i].is_free() && is_video_resolution(tokens[i].value());
        if take_resolution(tokens, i, shaped, results) {
            found = true;
            proof {
                let s = step(current.tokens, i as int).unwrap();
                o = extend(current, Some(s));
                assert(element_views(results@) =~= element_views(old(results)@) + o.emitted);
                assert(sourced(current.tokens, o.tokens, s.emitted)) by {
                    if positions_are_indices(current.tokens) {
                        assert(current.tokens[i as int].position == i);
                    }
                }
                lemma_sourced_then(before, current.tokens, o.tokens, current.emitted, s.emitted);
            }
        }
        i += 1;
    }
    if !found && !prior {
        let ghost site = bare_site(o.tokens);
        let mut j: usize = 0;
        while j < n
            invariant
                j <= n == tokens@.len(),
                views(tokens@) == o.tokens,
                site == bare_site(o.tokens),
                o.emitted.len() == 0,
                !prior,
                n == before.len(),
                o == each_index(before, resolution_step(), n as int),
                sourced(before, o.tokens, o.emitted),
                prior == has_element_kind(
                    element_views(old(results)@),
                    ElementKind::VideoResolution,
                ),
                before == views(old(tokens)@),
                forall|k: int| 0 <= k < j ==> !#[trigger] site(k),
                element_views(results@) == element_views(old(results)@) + o.emitted,
            decreases n - j,
        {
            let token = &tokens[j];
            if token.is_free() && token.is_number() && (equals(token.value(), "1080") || equals(
                token.value(),
                "720",
            )) {
                proof {
                    lemma_first_index_found(0, n as int, site, j as int);
                }
                push_element(results, new_element(ElementKind::VideoResolution, token));
                proof {
                    let emitted = seq![element_of(ElementKind::VideoResolution, o.tokens[j as int])];
                    assert(element_views(results@) =~= element_views(old(results)@) + emitted);
                    assert(sourced(o.tokens, o.tokens, emitted)) by {
                        if positions_are_indices(o.tokens) {
                            assert(o.tokens[j as int].position == j);
                        }
                    }
                    lemma_sourced_then(before, o.tokens, o.tokens, o.emitted, emitted);
                    assert(o.emitted + emitted =~= emitted);
                }
                return ;
            }
            j += 1;
        }
        proof {
            lemma_first_index_absent(0, n as int, site);
        }
    }
}

} // verus!
