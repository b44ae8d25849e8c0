//! Seasons: "2nd Season", "Season 2", `S01`, `S01-S02`, `第2期`.

use vstd::prelude::*;
use vstd::string::*;
use crate::element::{element_option_view, element_views, Element, ElementKind, ElementView};
use crate::keyword::KeywordKind;
use crate::parser::common::{counted, strip_counter};
use crate::parser::discipline::{disciplined, lemma_disciplined_idle, lemma_disciplined_then};
use crate::parser::outcome::{Outcome, all_from, applied_one, at_first, each_index, element_with, extend, new_element_with, push_element};
use crate::search::{lemma_first_index_absent, lemma_first_index_found};
use crate::text::{all_digits, find_separator, is_all_digits, split_once, Separators};
use crate::token::{claim, claim_at, claim_range, claim_span, views, Token, TokenView};
use crate::utils::{from_ordinal_number, from_roman_number, ordinal_number, roman_number};

verus! {

// ---------------------------------------------------------------------
// A season keyword beside a number.

/// An ordinal word, a delimiter and a `Season` keyword, as in
/// "Second Season": the word is free.
pub open spec fn ordinal_season_at(tokens: Seq<TokenView>, i: int) -> bool {
    i + 2 < tokens.len() && tokens[i + 2].has_keyword(KeywordKind::Season)
        && tokens[i + 1].is_delimiter() && tokens[i].is_free() && ordinal_number(
        tokens[i].value,
    ) is Some
}

/// A `Season` keyword, a delimiter and a number or a Roman numeral, as in
/// "Season 2": the number is free.
pub open spec fn numbered_season_at(tokens: Seq<TokenView>, i: int) -> bool {
    i + 2 < tokens.len() && tokens[i].has_keyword(KeywordKind::Season)
        && tokens[i + 1].is_delimiter() && tokens[i + 2].is_free() && (tokens[i + 2].is_number()
        || roman_number(tokens[i + 2].value) is Some)
}

pub open spec fn keyword_season_site(tokens: Seq<TokenView>) -> spec_fn(int) -> bool {
    |i: int| ordinal_season_at(tokens, i) || numbered_season_at(tokens, i)
}

/// The season that the three tokens from `i` on name, read from the
/// ordinal word or from the number.
pub open spec fn keyword_season_element(tokens: Seq<TokenView>, i: int) -> ElementView {
    if ordinal_season_at(tokens, i) {
        element_with(ElementKind::Season, ordinal_number(tokens[i].value).unwrap(), tokens[i])
    } else if tokens[i + 2].is_number() {
        element_with(ElementKind::Season, tokens[i + 2].value, tokens[i + 2])
    } else {
        element_with(
            ElementKind::Season,
            roman_number(tokens[i + 2].value).unwrap(),
            tokens[i + 2],
        )
    }
}

/// The three tokens are claimed; the season is emitted.
pub open spec fn keyword_season_outcome(tokens: Seq<TokenView>) -> spec_fn(int) -> Outcome {
    |i: int|
        Outcome {
            tokens: claim_range(tokens, i, i + 3),
            emitted: seq![keyword_season_element(tokens, i)],
        }
}

/// The first three tokens in a row that name a season with a keyword.
pub open spec fn keyword_season(tokens: Seq<TokenView>) -> Option<Outcome> {
    at_first(tokens, keyword_season_site(tokens), keyword_season_outcome(tokens))
}

/// Looks for a season named with a keyword: an ordinal word before it, or
/// a number after it.
pub fn inner_parse_season(tokens: &mut [Token]) -> (r: Option<Element>)
    ensures
        final(tokens)@.len() == old(tokens)@.len(),
        applied_one(
            keyword_season(views(old(tokens)@)),
            element_option_view(r),
            views(old(tokens)@),
            views(final(tokens)@),
        ),
        keyword_season(views(old(tokens)@)) matches Some(o) ==> disciplined(
            views(old(tokens)@),
            o.tokens,
            o.emitted,
        ),
{
    let n = tokens.len();
    let ghost before = views(tokens@);
    let ghost site = keyword_season_site(before);
    let mut i: usize = 0;
    while i < n
        invariant
            n == tokens@.len(),
            before == views(old(tokens)@),
            views(tokens@) == before,
            site == keyword_season_site(before),
            forall|j: int| 0 <= j < i ==> !#[trigger] site(j),
        decreases n - i,
    {
        if n - i > 2 && tokens[i + 1].is_delimiter() {
            if tokens[i + 2].has_keyword(KeywordKind::Season) && tokens[i].is_free() {
                if let Some(number) = from_ordinal_number(tokens[i].value()) {
                    proof {
                        lemma_first_index_found(0, n as int, site, i as int);
                    }
                    let element = new_element_with(ElementKind::Season, number, &tokens[i]);
                    claim_span(tokens, i, i + 3);
                    return Some(element);
                }
            }
            if tokens[i].has_keyword(KeywordKind::Season) && tokens[i + 2].is_free() {
                let last = &tokens[i + 2];
                let value = if last.is_number() {
                    Some(last.value())
                } else {
                    from_roman_number(last.value())
                };
                if let Some(value) = value {
                    proof {
                        lemma_first_index_found(0, n as int, site, i as int);
                    }
                    let element = new_element_with(ElementKind::Season, value, last);
                    claim_span(tokens, i, i + 3);
                    return Some(element);
                }
            }
        }
        i += 1;
    }
    proof {
        lemma_first_index_absent(0, n as int, site);
    }
    None
}

// ---------------------------------------------------------------------
// A season written in the token itself.

/// The number of a season: one or two digits.
pub open spec fn season_digits(s: Seq<char>) -> bool {
    1 <= s.len() <= 2 && all_digits(s)
}

pub open spec fn starts_with_s(s: Seq<char>) -> bool {
    s.len() > 0 && (s[0] == 'S' || s[0] == 's')
}

/// The text without a leading `S` or `s`.
pub open spec fn without_s(s: Seq<char>) -> Seq<char> {
    if starts_with_s(s) {
        s.subrange(1, s.len() as int)
    } else {
        s
    }
}

/// Two seasons in one token, as in `S01-S02` or `S1~2`: the token begins
/// with `S`, and on the two sides of its first `-`, `~`, `&` or `+` stand
/// season numbers, each with or without an `S` before it.
pub open spec fn season_pair(value: Seq<char>) -> Option<(Seq<char>, Seq<char>)> {
    match split_once(value, Separators::Range) {
        Some((first, second)) => if starts_with_s(value) && season_digits(without_s(first))
            && season_digits(without_s(second)) {
            Some((without_s(first), without_s(second)))
        } else {
            None
        },
        None => None,
    }
}

/// One season, as in `S01`.
pub open spec fn season_single(value: Seq<char>) -> Option<Seq<char>> {
    if starts_with_s(value) && season_digits(without_s(value)) {
        Some(without_s(value))
    } else {
        None
    }
}

/// The season that one piece of a token names with the counter word, as in
/// `第2期` or `2期`.
pub open spec fn piece_season(piece: Seq<char>, t: TokenView) -> Seq<ElementView> {
    match counted(piece, '期') {
        Some(number) => if season_digits(number) {
            seq![element_with(ElementKind::Season, number, t)]
        } else {
            Seq::empty()
        },
        None => Seq::empty(),
    }
}

/// The seasons that the pieces of a token name with the counter word. The
/// pieces are what lies between the characters `.`, `-`, `&`, `+` and `~`;
/// `start` is where the piece at hand begins and `i` how far it has been
/// read.
pub open spec fn counted_seasons(t: TokenView, start: int, i: int) -> Seq<ElementView>
    decreases t.value.len() - i,
{
    if i >= t.value.len() {
        piece_season(t.value.subrange(start, t.value.len() as int), t)
    } else if Separators::Piece.holds(t.value[i]) {
        piece_season(t.value.subrange(start, i), t) + counted_seasons(t, i + 1, i + 1)
    } else {
        counted_seasons(t, start, i + 1)
    }
}

/// The seasons that a token names by itself.
pub open spec fn token_seasons(t: TokenView) -> Seq<ElementView> {
    match season_pair(t.value) {
        Some((first, second)) => seq![
            element_with(ElementKind::Season, first, t),
            element_with(ElementKind::Season, second, t),
        ],
        None => match season_single(t.value) {
            Some(number) => seq![element_with(ElementKind::Season, number, t)],
            None => counted_seasons(t, 0, 0),
        },
    }
}

/// A free token that names seasons is claimed, and they are emitted.
pub open spec fn token_season_step() -> spec_fn(Seq<TokenView>, int) -> Option<Outcome> {
    |tokens: Seq<TokenView>, i: int|
        if tokens[i].is_free() && token_seasons(tokens[i]).len() > 0 {
            Some(Outcome { tokens: claim_at(tokens, i), emitted: token_seasons(tokens[i]) })
        } else {
            None
        }
}

/// What the search for seasons does: a season named with a keyword, if
/// there is one; otherwise every season that a free token names by itself.
pub open spec fn season(tokens: Seq<TokenView>) -> Outcome {
    match keyword_season(tokens) {
        Some(o) => o,
        None => each_index(tokens, token_season_step(), tokens.len() as int),
    }
}

fn is_season_digits(s: &str) -> (r: bool)
    ensures
        r == season_digits(s@),
{
    let n = s.unicode_len();
    n >= 1 && n <= 2 && is_all_digits(s)
}

fn strip_s(s: &str) -> (r: &str)
    ensures
        r@ == without_s(s@),
{
    let n = s.unicode_len();
    if n > 0 && (s.get_char(0) == 'S' || s.get_char(0) == 's') {
        s.substring_char(1, n)
    } else {
        s
    }
}

/// The seasons that the pieces of the token name with the counter word.
fn counted_season_elements(token: &Token) -> (r: Vec<Element>)
    ensures
        element_views(r@) == counted_seasons(token@, 0, 0),
        all_from(element_views(r@), token@),
{
    let value = token.value();
    let n = value.unicode_len();
    let mut elements: Vec<Element> = Vec::new();
    let mut start: usize = 0;
    let mut i: usize = 0;
    assert(element_views(elements@) + counted_seasons(token@, 0, 0) =~= counted_seasons(
        token@,
        0,
        0,
    ));
    while i < n
        invariant
            start <= i <= n,
            n == value@.len(),
            value@ == token@.value,
            element_views(elements@) + counted_seasons(token@, start as int, i as int)
                == counted_seasons(token@, 0, 0),
            all_from(element_views(elements@), token@),
        decreases n - i,
    {
        if Separators::Piece.contains(value.get_char(i)) {
            let ghost so_far = element_views(elements@);
            push_piece(&mut elements, value.substring_char(start, i), token);
            assert(so_far + (piece_season(value@.subrange(start as int, i as int), token@)
                + counted_seasons(token@, i + 1, i + 1)) =~= (so_far + piece_season(
                value@.subrange(start as int, i as int),
                token@,
            )) + counted_seasons(token@, i + 1, i + 1));
            start = i + 1;
        }
        i += 1;
    }
    push_piece(&mut elements, value.substring_char(start, n), token);
    elements
}

/// Appends the season that one piece of the token names.
fn push_piece(elements: &mut Vec<Element>, piece: &str, token: &Token)
    requires
        all_from(element_views(old(elements)@), token@),
    ensures
        element_views(final(elements)@) == element_views(old(elements)@) + piece_season(
            piece@,
            token@,
        ),
        all_from(element_views(final(elements)@), token@),
{
    if let Some(number) = strip_counter(piece, '期') {
        if is_season_digits(number) {
            push_element(elements, new_element_with(ElementKind::Season, number, token));
            assert(element_views(elements@) =~= element_views(old(elements)@) + piece_season(
                piece@,
                token@,
            ));
            return ;
        }
    }
    assert(element_views(elements@) =~= element_views(old(elements)@) + piece_season(
        piece@,
        token@,
    ));
}

/// The seasons that the token names by itself.
fn token_season_elements(token: &Token) -> (r: Vec<Element>)
    ensures
        element_views(r@) == token_seasons(token@),
        all_from(element_views(r@), token@),
{
    let value = token.value();
    let n = value.unicode_len();
    let starts = n > 0 && (value.get_char(0) == 'S' || value.get_char(0) == 's');
    if starts {
        if let Some(k) = find_separator(value, Separators::Range) {
            let first = strip_s(value.substring_char(0, k));
            let second = strip_s(value.substring_char(k + 1, n));
            if is_season_digits(first) && is_season_digits(second) {
                let mut elements: Vec<Element> = Vec::new();
                push_element(&mut elements, new_element_with(ElementKind::Season, first, token));
                push_element(&mut elements, new_element_with(ElementKind::Season, second, token));
                assert(element_views(elements@) =~= token_seasons(token@));
                return elements;
            }
        }
        let suffix = value.substring_char(1, n);
        if is_season_digits(suffix) {
            let mut elements: Vec<Element> = Vec::new();
            push_element(&mut elements, new_element_with(ElementKind::Season, suffix, token));
            assert(element_views(elements@) =~= token_seasons(token@));
            return elements;
        }
    }
    counted_season_elements(token)
}

/// Searches the tokens for seasons. A season named with a keyword ends the
/// search. Otherwise every free token that names seasons by itself is
/// claimed, and its seasons are appended.
pub fn parse_season(tokens: &mut [Token], results: &mut Vec<Element>)
    ensures
        final(tokens)@.len() == old(tokens)@.len(),
        views(final(tokens)@) == season(views(old(tokens)@)).tokens,
        element_views(final(results)@) == element_views(old(results)@) + season(
            views(old(tokens)@),
        ).emitted,
        disciplined(
            views(old(tokens)@),
            season(views(old(tokens)@)).tokens,
            season(views(old(tokens)@)).emitted,
        ),
{
    if let Some(element) = inner_parse_season(tokens) {
        push_element(results, element);
        assert(element_views(results@) =~= element_views(old(results)@) + seq![element@]);
        return ;
    }
    let n = tokens.len();
    let ghost before = views(tokens@);
    let ghost step = token_season_step();
    let ghost mut o = Outcome { tokens: before, emitted: Seq::empty() };
    proof {
        lemma_disciplined_idle(before);
        assert(element_views(results@) =~= element_views(old(results)@) + o.emitted);
    }
    let mut i: usize = 0;
    while i < n
        invariant
            i <= n == tokens@.len(),
            n == before.len(),
            step == token_season_step(),
            o == each_index(before, step, i as int),
            views(tokens@) == o.tokens,
            element_views(results@) == element_views(old(results)@) + o.emitted,
            disciplined(before, o.tokens, o.emitted),
        decreases n - i,
    {
        let ghost current = o;
        if tokens[i].is_free() {
            let elements = token_season_elements(&tokens[i]);
            if elements.len() > 0 {
                let ghost emitted = element_views(elements@);
                crate::parser::outcome::append_elements(results, elements);
                claim(tokens, i);
                proof {
                    o = extend(current, step(current.tokens, i as int));
                    assert(element_views(results@) =~= element_views(old(results)@) + o.emitted);
                    assert(disciplined(current.tokens, o.tokens, emitted)) by {
                        if crate::token::positions_are_indices(current.tokens) {
                            assert(current.tokens[i as int].position == i);
                        }
                    }
                    lemma_disciplined_then(
                        before,
                        current.tokens,
                        o.tokens,
                        current.emitted,
                        emitted,
                    );
                }
            }
        }
        i += 1;
    }
}

} // verus!
