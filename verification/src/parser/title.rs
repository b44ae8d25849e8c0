//! The title: the first run of free text outside brackets.

use vstd::prelude::*;
use crate::element::{element_option_view, Element, ElementKind};
use crate::parser::discipline::{disciplined};
use crate::parser::outcome::{Outcome, applied_one, end_or_len, span_outcome, take_span};
use crate::search::{index_view, last_index};
use crate::token::{opposite_bracket, spec_opposite_bracket, views, KeepDelimiters, Token, TokenView};
use crate::utils::{
    count_matching, count_tokens, find_next_token, find_pair, find_prev_token, leading_char,
    next_token, pair_of, pair_view, prev_token, test_at, unclaimed_but_parts, TokenTest,
};

verus! {

/// The closing bracket that pairs with the bracket a token begins with.
pub open spec fn leading_bracket(t: TokenView) -> Option<char> {
    if t.value.len() > 0 {
        spec_opposite_bracket(t.value[0])
    } else {
        None
    }
}

/// Where the title begins, and where it ends at first sight. It begins at
/// the first free token outside brackets and ends before the next opening
/// bracket or claimed token, a claimed `Part` keyword excepted. Where no
/// free token stands outside brackets, the title is looked for after the
/// first opening bracket that follows a closing bracket: it begins at the
/// first free token from there on and ends before the bracket that closes
/// the opening one.
pub open spec fn title_candidate(tokens: Seq<TokenView>) -> Option<(int, Option<int>)> {
    match next_token(tokens, 0, TokenTest::FreeNotEnclosed) {
        Some(first) => Some((first, next_token(tokens, first + 1, TokenTest::TitleEnd))),
        None => match pair_of(tokens, TokenTest::ClosedBracket, TokenTest::OpenBracket) {
            Some((_, open)) => match leading_bracket(tokens[open]) {
                Some(closing) => match next_token(tokens, open, TokenTest::Free) {
                    Some(first) => Some(
                        (first, next_token(tokens, first + 1, TokenTest::BracketFrom(closing))),
                    ),
                    None => None,
                },
                None => None,
            },
            None => None,
        },
    }
}

/// The end of the title, moved back to the last opening bracket where the
/// run holds more opening than closing brackets.
pub open spec fn balanced_end(tokens: Seq<TokenView>, first: int, end: Option<int>) -> Option<
    int,
> {
    let stop = end_or_len(tokens, end);
    if count_tokens(tokens, first, stop, TokenTest::OpenBracket) > count_tokens(
        tokens,
        first,
        stop,
        TokenTest::ClosedBracket,
    ) {
        last_index(first, stop, test_at(tokens, TokenTest::OpenBracket))
    } else {
        end
    }
}

/// The end of the title, moved back over a bracketed group at its end:
/// where the last token before the end that is not a delimiter is a
/// closing bracket other than `)`, the title ends at the nearest opening
/// bracket before it.
pub open spec fn rewound_end(tokens: Seq<TokenView>, end: Option<int>) -> Option<int> {
    match prev_token(tokens, end_or_len(tokens, end), TokenTest::NotDelimiter) {
        Some(p) => if tokens[p].is_closed_bracket() && tokens[p].value != ")"@ {
            match prev_token(tokens, p, TokenTest::OpenBracket) {
                Some(open) => Some(open),
                None => end,
            }
        } else {
            end
        },
        None => end,
    }
}

/// The tokens of the title, as a range of indices. There is none where the
/// end, once moved back, lies before the beginning.
pub open spec fn title_range(tokens: Seq<TokenView>) -> Option<(int, int)> {
    match title_candidate(tokens) {
        Some((first, end)) => {
            let stop = end_or_len(tokens, rewound_end(tokens, balanced_end(tokens, first, end)));
            if first <= stop {
                Some((first, stop))
            } else {
                None
            }
        },
        None => None,
    }
}

/// What the search for the title does.
pub open spec fn title(tokens: Seq<TokenView>) -> Option<Outcome> {
    span_outcome(tokens, title_range(tokens), ElementKind::Title, KeepDelimiters::No)
}

/// A pair of an index and an optional index, as mathematical integers.
pub open spec fn candidate_view(c: Option<(usize, Option<usize>)>) -> Option<(int, Option<int>)> {
    match c {
        Some((a, b)) => Some((a as int, index_view(b))),
        None => None,
    }
}

fn find_title_candidate(tokens: &[Token]) -> (r: Option<(usize, Option<usize>)>)
    ensures
        candidate_view(r) == title_candidate(views(tokens@)),
        r matches Some((a, b)) ==> a < tokens@.len() && views(tokens@)[a as int].is_free() && (
        b matches Some(e) ==> a < e < tokens@.len()),
        next_token(views(tokens@), 0, TokenTest::FreeNotEnclosed) is Some ==> (r matches Some(
            (a, b),
        ) && unclaimed_but_parts(
            views(tokens@),
            a as int,
            end_or_len(views(tokens@), index_view(b)),
        )),
{
    if let Some(first) = find_next_token(tokens, 0, false, TokenTest::FreeNotEnclosed) {
        return Some((first, find_next_token(tokens, first, true, TokenTest::TitleEnd)));
    }
    let (_, open) = match find_pair(tokens, TokenTest::ClosedBracket, TokenTest::OpenBracket) {
        Some(p) => p,
        None => {
            return None;
        },
    };
    let closing = match leading_char(&tokens[open]) {
        Some(c) => match opposite_bracket(c) {
            Some(closing) => closing,
            None => {
                return None;
            },
        },
        None => {
            return None;
        },
    };
    match find_next_token(tokens, open, false, TokenTest::Free) {
        Some(first) => Some(
            (first, find_next_token(tokens, first, true, TokenTest::BracketFrom(closing))),
        ),
        None => None,
    }
}

/// Finds the tokens of the title. The result is the range of their
/// indices: the first, and the one after the last.
pub fn find_title(tokens: &[Token]) -> (r: Option<(usize, usize)>)
    ensures
        pair_view(r) == title_range(views(tokens@)),
        r matches Some((a, b)) ==> a <= b <= tokens@.len(),
        r matches Some((a, b)) ==> a < b ==> !views(tokens@)[a as int].is_identified,
        next_token(views(tokens@), 0, TokenTest::FreeNotEnclosed) is Some ==> (r matches Some(
            (a, b),
        ) ==> unclaimed_but_parts(views(tokens@), a as int, b as int)),
{
    let n = tokens.len();
    let (first, mut last) = match find_title_candidate(tokens) {
        Some(c) => c,
        None => {
            return None;
        },
    };
    let stop = match last {
        Some(e) => e,
        None => n,
    };
    let opens = count_matching(tokens, first, stop, TokenTest::OpenBracket);
    let closes = count_matching(tokens, first, stop, TokenTest::ClosedBracket);
    if opens > closes {
        let open = find_prev_token(tokens, Some(stop), TokenTest::OpenBracket);
        proof {
            let p = test_at(views(tokens@), TokenTest::OpenBracket);
            crate::search::lemma_last_index(first as int, stop as int, p);
            match last_index(first as int, stop as int, p) {
                Some(k) => {
                    crate::search::lemma_last_index_found(0, stop as int, p, k);
                },
                None => {
                    lemma_count_none(
                        views(tokens@),
                        first as int,
                        stop as int,
                        TokenTest::OpenBracket,
                    );
                },
            }
        }
        last = open;
    }
    if let Some(p) = find_prev_token(tokens, last, TokenTest::NotDelimiter) {
        if tokens[p].is_closed_bracket() && !crate::text::equals(tokens[p].value(), ")") {
            if let Some(open) = find_prev_token(tokens, Some(p), TokenTest::OpenBracket) {
                last = Some(open);
            }
        }
    }
    let stop = match last {
        Some(e) => e,
        None => n,
    };
    if first <= stop {
        Some((first, stop))
    } else {
        None
    }
}

/// Where no token of a run passes the test, none is counted.
pub proof fn lemma_count_none(tokens: Seq<TokenView>, lo: int, hi: int, test: TokenTest)
    requires
        forall|j: int| lo <= j < hi ==> !#[trigger] test_at(tokens, test)(j),
    ensures
        count_tokens(tokens, lo, hi, test) == 0,
    decreases hi - lo,
{
    if lo < hi {
        assert(!test_at(tokens, test)(hi - 1));
        lemma_count_none(tokens, lo, hi - 1, test);
    }
}

/// Looks for the title. Where its tokens give a text that is not empty,
/// they are all claimed, and the text is the title.
pub fn parse_title(tokens: &mut [Token]) -> (r: Option<Element>)
    ensures
        final(tokens)@.len() == old(tokens)@.len(),
        applied_one(
            title(views(old(tokens)@)),
            element_option_view(r),
            views(old(tokens)@),
            views(final(tokens)@),
        ),
        title(views(old(tokens)@)) matches Some(o) ==> disciplined(
            views(old(tokens)@),
            o.tokens,
            o.emitted,
        ),
        title_range(views(old(tokens)@)) matches Some((a, b)) ==> 0 <= a <= b <= old(tokens)@.len()
            && (next_token(views(old(tokens)@), 0, TokenTest::FreeNotEnclosed) is Some
            ==> unclaimed_but_parts(views(old(tokens)@), a, b)),
{
    let range = find_title(tokens);
    take_span(tokens, range, ElementKind::Title, KeepDelimiters::No)
}

} // verus!
