//! The release group: unclaimed text in brackets, or a word after a final
//! dash.

use vstd::prelude::*;
use crate::element::{element_option_view, Element, ElementKind};
use crate::parser::title::leading_bracket;
use crate::parser::discipline::{disciplined};
use crate::parser::outcome::{Outcome, applied_one, end_or_len, span_outcome, take_span};
use crate::search::{index_view, lemma_first_index};
use crate::text::equals;
use crate::token::{opposite_bracket, views, KeepDelimiters, Token, TokenView};
use crate::utils::{
    find_next_token, find_prev_token, is_unclaimed_span, leading_char, next_token,
    none_identified, pair_view, prev_token, test_at, TokenTest,
};

verus! {

/// Where a bracketed run that begins at `first` ends: at the next closing
/// bracket after it. Where an opening bracket that is not itself enclosed
/// stands before `first`, and the nearest such bracket begins with a known
/// bracket character, only a closing bracket of the same pair will do.
pub open spec fn closing_index(tokens: Seq<TokenView>, first: Option<int>) -> Option<int> {
    match first {
        Some(index) => {
            let open = prev_token(
                tokens,
                if index <= tokens.len() {
                    index
                } else {
                    tokens.len() as int
                },
                TokenTest::OpenBracketNotEnclosed,
            );
            let bracket = match open {
                Some(i) => leading_bracket(tokens[i]),
                None => None,
            };
            match bracket {
                Some(b) => next_token(tokens, index + 1, TokenTest::ClosedBracketFrom(b)),
                None => next_token(tokens, index + 1, TokenTest::ClosedBracket),
            }
        },
        None => None,
    }
}

/// The bracketed run for the release group, looked for from the token at
/// `first` on: the run from `first` to its closing bracket, if no token of
/// it is claimed; otherwise the run that is found from the next free
/// token in brackets after that closing bracket. A run without a closing
/// bracket has no end.
pub open spec fn enclosed_span(tokens: Seq<TokenView>, first: int) -> Option<(int, Option<int>)>
    decreases tokens.len() - first,
{
    if first < 0 || first >= tokens.len() {
        None
    } else {
        match closing_index(tokens, Some(first)) {
            Some(end) => if none_identified(tokens, first, end) {
                Some((first, Some(end)))
            } else {
                match next_token(tokens, end + 1, TokenTest::EnclosedFree) {
                    Some(next) => {
                        proof {
                            lemma_first_index(
                                end + 1,
                                tokens.len() as int,
                                test_at(tokens, TokenTest::EnclosedFree),
                            );
                            lemma_closing_after(tokens, first);
                        }
                        enclosed_span(tokens, next)
                    },
                    None => None,
                }
            },
            None => Some((first, None)),
        }
    }
}

/// A closing index lies after the index it was looked for from.
pub proof fn lemma_closing_after(tokens: Seq<TokenView>, first: int)
    requires
        0 <= first < tokens.len(),
    ensures
        closing_index(tokens, Some(first)) matches Some(end) ==> first < end < tokens.len(),
{
    let open = prev_token(tokens, first, TokenTest::OpenBracketNotEnclosed);
    let bracket = match open {
        Some(i) => leading_bracket(tokens[i]),
        None => None,
    };
    match bracket {
        Some(b) => lemma_first_index(
            first + 1,
            tokens.len() as int,
            test_at(tokens, TokenTest::ClosedBracketFrom(b)),
        ),
        None => lemma_first_index(
            first + 1,
            tokens.len() as int,
            test_at(tokens, TokenTest::ClosedBracket),
        ),
    }
}

/// The last free token, where the token just before it is the delimiter
/// `-`.
pub open spec fn trailing_group(tokens: Seq<TokenView>) -> Option<int> {
    match prev_token(tokens, tokens.len() as int, TokenTest::Free) {
        Some(i) => if i != 0 && tokens[i - 1].is_delimiter() && tokens[i - 1].value == "-"@ {
            Some(i)
        } else {
            None
        },
        None => None,
    }
}

/// The tokens of the release group, as a range of indices: a bracketed
/// run without claimed tokens, looked for from the first unclaimed token
/// in brackets on; failing that, the word after a final dash.
pub open spec fn release_group_range(tokens: Seq<TokenView>) -> Option<(int, int)> {
    let enclosed = match next_token(tokens, 0, TokenTest::EnclosedNotIdentified) {
        Some(first) => enclosed_span(tokens, first),
        None => None,
    };
    match enclosed {
        Some((first, end)) => Some((first, end_or_len(tokens, end))),
        None => match trailing_group(tokens) {
            Some(i) => Some((i, i + 1)),
            None => None,
        },
    }
}

/// The release group begins inside brackets at an unclaimed token, or it
/// is one free word after a dash.
pub open spec fn group_origin(tokens: Seq<TokenView>, a: int, b: int) -> bool {
    &&& 0 <= a < tokens.len()
    &&& (tokens[a].is_enclosed && !tokens[a].is_identified) || (a > 0 && b == a + 1
        && tokens[a].is_free() && tokens[a - 1].is_delimiter() && tokens[a - 1].value == "-"@)
}

/// What the search for the release group does.
pub open spec fn release_group(tokens: Seq<TokenView>) -> Option<Outcome> {
    span_outcome(
        tokens,
        release_group_range(tokens),
        ElementKind::ReleaseGroup,
        KeepDelimiters::Yes,
    )
}

/// Where the bracketed run that begins at `first` ends.
pub fn get_last_index_for_release_group(tokens: &[Token], first: Option<usize>) -> (r: Option<
    usize,
>)
    ensures
        index_view(r) == closing_index(views(tokens@), index_view(first)),
        r matches Some(end) ==> first matches Some(index) && index < end < tokens@.len(),
{
    let index = match first {
        Some(index) => index,
        None => {
            return None;
        },
    };
    let other_bracket = match find_prev_token(tokens, first, TokenTest::OpenBracketNotEnclosed) {
        Some(i) => match leading_char(&tokens[i]) {
            Some(c) => opposite_bracket(c),
            None => None,
        },
        None => None,
    };
    match other_bracket {
        Some(bracket) => find_next_token(tokens, index, true, TokenTest::ClosedBracketFrom(bracket)),
        None => find_next_token(tokens, index, true, TokenTest::ClosedBracket),
    }
}

/// A pair of an index and an optional index, as mathematical integers.
pub open spec fn span_view(c: Option<(usize, Option<usize>)>) -> Option<(int, Option<int>)> {
    match c {
        Some((a, b)) => Some((a as int, index_view(b))),
        None => None,
    }
}

fn find_enclosed_span(tokens: &[Token], first: usize) -> (r: Option<(usize, Option<usize>)>)
    requires
        first < tokens@.len(),
        views(tokens@)[first as int].is_enclosed,
        !views(tokens@)[first as int].is_identified,
    ensures
        span_view(r) == enclosed_span(views(tokens@), first as int),
        r matches Some((a, b)) ==> a < tokens@.len() && views(tokens@)[a as int].is_enclosed
            && !views(tokens@)[a as int].is_identified && (b matches Some(e) ==> a < e
            < tokens@.len()),
    decreases tokens@.len() - first,
{
    match get_last_index_for_release_group(tokens, Some(first)) {
        Some(end) => {
            if is_unclaimed_span(tokens, first, end) {
                Some((first, Some(end)))
            } else {
                match find_next_token(tokens, end, true, TokenTest::EnclosedFree) {
                    Some(next) => find_enclosed_span(tokens, next),
                    None => None,
                }
            }
        },
        None => Some((first, None)),
    }
}

/// Finds the tokens of the release group. The result is the range of
/// their indices: the first, and the one after the last. The range begins
/// inside brackets at an unclaimed token, or it is one free word after a
/// dash.
pub fn find_release_group(tokens: &[Token]) -> (r: Option<(usize, usize)>)
    ensures
        pair_view(r) == release_group_range(views(tokens@)),
        r matches Some((a, b)) ==> a < b <= tokens@.len() && group_origin(
            views(tokens@),
            a as int,
            b as int,
        ),
{
    let n = tokens.len();
    let enclosed = match find_next_token(tokens, 0, false, TokenTest::EnclosedNotIdentified) {
        Some(first) => find_enclosed_span(tokens, first),
        None => None,
    };
    if let Some((first, end)) = enclosed {
        return match end {
            Some(end) => Some((first, end)),
            None => Some((first, n)),
        };
    }
    if let Some(i) = find_prev_token(tokens, Some(n), TokenTest::Free) {
        if i != 0 && tokens[i - 1].is_delimiter() && equals(tokens[i - 1].value(), "-") {
            return Some((i, i + 1));
        }
    }
    None
}

/// Looks for the release group. Where its tokens give a text that is not
/// empty, they are all claimed, and the text, delimiters kept, is the
/// release group.
pub fn parse_release_group(tokens: &mut [Token]) -> (r: Option<Element>)
    ensures
        final(tokens)@.len() == old(tokens)@.len(),
        applied_one(
            release_group(views(old(tokens)@)),
            element_option_view(r),
            views(old(tokens)@),
            views(final(tokens)@),
        ),
        release_group(views(old(tokens)@)) matches Some(o) ==> disciplined(
            views(old(tokens)@),
            o.tokens,
            o.emitted,
        ),
        release_group_range(views(old(tokens)@)) matches Some((a, b)) ==> a < b
            <= old(tokens)@.len() && group_origin(views(old(tokens)@), a, b),
{
    let range = find_release_group(tokens);
    take_span(tokens, range, ElementKind::ReleaseGroup, KeepDelimiters::Yes)
}

} // verus!
