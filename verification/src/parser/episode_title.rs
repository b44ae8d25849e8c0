//! The title of the episode: the free text left over after the episode.

use vstd::prelude::*;
use crate::element::{element_option_view, Element, ElementKind};
use crate::parser::discipline::{disciplined};
use crate::parser::outcome::{Outcome, applied_one, end_or_len, span_outcome, take_span};
use crate::token::{views, KeepDelimiters, Token, TokenView};
use crate::utils::{
    find_next_token, is_unclaimed_span, next_token, none_identified, pair_view,
    unclaimed_but_parts, TokenTest,
};

verus! {

/// The tokens of the episode title, as a range of indices. The title
/// begins at the first free token outside brackets and ends before the
/// next opening bracket or claimed token, a claimed `Part` keyword
/// excepted. Where no free token stands outside brackets, it is what
/// stands between the first `「` and the next `」`, if none of that is
/// claimed.
pub open spec fn episode_title_range(tokens: Seq<TokenView>) -> Option<(int, int)> {
    match next_token(tokens, 0, TokenTest::FreeNotEnclosed) {
        Some(first) => Some(
            (first, end_or_len(tokens, next_token(tokens, first, TokenTest::TitleEnd))),
        ),
        None => match next_token(tokens, 0, TokenTest::OpenBracketOf('「')) {
            Some(open) => match next_token(tokens, open + 1, TokenTest::ClosedBracketOf('」')) {
                Some(close) => if none_identified(tokens, open + 1, close) {
                    Some((open + 1, close))
                } else {
                    None
                },
                None => None,
            },
            None => None,
        },
    }
}

/// What the search for the episode title does.
pub open spec fn episode_title(tokens: Seq<TokenView>) -> Option<Outcome> {
    span_outcome(
        tokens,
        episode_title_range(tokens),
        ElementKind::EpisodeTitle,
        KeepDelimiters::No,
    )
}

/// Finds the tokens of the episode title. The result is the range of
/// their indices: the first, and the one after the last.
pub fn find_episode_title(tokens: &[Token]) -> (r: Option<(usize, usize)>)
    ensures
        pair_view(r) == episode_title_range(views(tokens@)),
        r matches Some((a, b)) ==> a <= b <= tokens@.len(),
        r matches Some((a, b)) ==> a < b ==> !views(tokens@)[a as int].is_identified,
        r matches Some((a, b)) ==> unclaimed_but_parts(views(tokens@), a as int, b as int),
{
    let n = tokens.len();
    if let Some(first) = find_next_token(tokens, 0, false, TokenTest::FreeNotEnclosed) {
        return match find_next_token(tokens, first, false, TokenTest::TitleEnd) {
            Some(last) => Some((first, last)),
            None => Some((first, n)),
        };
    }
    let open = match find_next_token(tokens, 0, false, TokenTest::OpenBracketOf('「')) {
        Some(open) => open,
        None => {
            return None;
        },
    };
    match find_next_token(tokens, open, true, TokenTest::ClosedBracketOf('」')) {
        Some(close) => {
            if is_unclaimed_span(tokens, open + 1, close) {
                Some((open + 1, close))
            } else {
                None
            }
        },
        None => None,
    }
}

/// Looks for the title of the episode. Where its tokens give a text that
/// is not empty, they are all claimed, and the text is the episode title.
pub fn parse_episode_title(tokens: &mut [Token]) -> (r: Option<Element>)
    ensures
        final(tokens)@.len() == old(tokens)@.len(),
        applied_one(
            episode_title(views(old(tokens)@)),
            element_option_view(r),
            views(old(tokens)@),
            views(final(tokens)@),
        ),
        episode_title(views(old(tokens)@)) matches Some(o) ==> disciplined(
            views(old(tokens)@),
            o.tokens,
            o.emitted,
        ),
        episode_title_range(views(old(tokens)@)) matches Some((a, b)) ==> 0 <= a <= b
            <= old(tokens)@.len() && unclaimed_but_parts(views(old(tokens)@), a, b),
{
    let range = find_episode_title(tokens);
    take_span(tokens, range, ElementKind::EpisodeTitle, KeepDelimiters::No)
}

} // verus!
