//! Years and dates.

use vstd::prelude::*;
use vstd::string::*;
use crate::element::{element_option_view, Element, ElementKind};
use crate::parser::common::{is_token_isolated, token_isolated};
use crate::parser::discipline::{disciplined};
use crate::parser::outcome::{Outcome, applied_one, at_first, element_with, new_element, or_else, whole_token};
use crate::search::{lemma_first_index_absent, lemma_first_index_found};
use crate::text::{find_separator, parse_number, parse_unsigned, split_once, Separators};
use crate::token::{claim, claim_range, claim_span, views, Token, TokenView};

verus! {

/// A year from 1950 to 2050, written as a number.
pub open spec fn year_text(s: Seq<char>) -> bool {
    parse_unsigned(s, u16::MAX as nat) matches Some(x) && 1950 <= x <= 2050
}

/// A month from 1 to 12, written as a number.
pub open spec fn month_text(s: Seq<char>) -> bool {
    parse_unsigned(s, u8::MAX as nat) matches Some(x) && 1 <= x <= 12
}

/// A day from 1 to 31, written as a number.
pub open spec fn day_text(s: Seq<char>) -> bool {
    parse_unsigned(s, u8::MAX as nat) matches Some(x) && 1 <= x <= 31
}

pub fn is_year(s: &str) -> (r: bool)
    ensures
        r == year_text(s@),
{
    match parse_number(s, u16::MAX) {
        Some(x) => 1950 <= x && x <= 2050,
        None => false,
    }
}

pub fn is_month(s: &str) -> (r: bool)
    ensures
        r == month_text(s@),
{
    match parse_number(s, 255) {
        Some(x) => 1 <= x && x <= 12,
        None => false,
    }
}

pub fn is_day(s: &str) -> (r: bool)
    ensures
        r == day_text(s@),
{
    match parse_number(s, 255) {
        Some(x) => 1 <= x && x <= 31,
        None => false,
    }
}

// ---------------------------------------------------------------------
// Years.

/// A free number that is a year.
pub open spec fn year_token(t: TokenView) -> bool {
    t.is_free() && t.is_number() && year_text(t.value)
}

/// The tokens at `i`, `i + 1` and `i + 2` are an opening bracket, a year
/// and a closing bracket.
pub open spec fn bracketed_year_site(tokens: Seq<TokenView>) -> spec_fn(int) -> bool {
    |i: int|
        i + 2 < tokens.len() && tokens[i].is_open_bracket() && tokens[i + 2].is_closed_bracket()
            && year_token(tokens[i + 1])
}

/// The year in the middle is claimed and emitted.
pub open spec fn bracketed_year_outcome(tokens: Seq<TokenView>) -> spec_fn(int) -> Outcome {
    |i: int| whole_token(tokens, ElementKind::Year)(i + 1)
}

/// The token at `i` is a year outside brackets, and isolated.
pub open spec fn isolated_year_site(tokens: Seq<TokenView>) -> spec_fn(int) -> bool {
    |i: int| year_token(tokens[i]) && !tokens[i].is_enclosed && token_isolated(tokens, i)
}

/// What the search for a year does: the first year that stands alone in
/// brackets; failing that, the first year outside brackets that is
/// isolated.
pub open spec fn year(tokens: Seq<TokenView>) -> Option<Outcome> {
    or_else(
        at_first(tokens, bracketed_year_site(tokens), bracketed_year_outcome(tokens)),
        at_first(tokens, isolated_year_site(tokens), whole_token(tokens, ElementKind::Year)),
    )
}

fn is_year_token(token: &Token) -> (r: bool)
    ensures
        r == year_token(token@),
{
    token.is_free() && token.is_number() && is_year(token.value())
}

/// Looks for the year of release.
pub fn parse_year(tokens: &mut [Token]) -> (r: Option<Element>)
    ensures
        final(tokens)@.len() == old(tokens)@.len(),
        applied_one(
            year(views(old(tokens)@)),
            element_option_view(r),
            views(old(tokens)@),
            views(final(tokens)@),
        ),
        year(views(old(tokens)@)) matches Some(o) ==> disciplined(
            views(old(tokens)@),
            o.tokens,
            o.emitted,
        ),
{
    let n = tokens.len();
    let ghost before = views(tokens@);
    let ghost site = bracketed_year_site(before);
    let mut i: usize = 0;
    while i < n
        invariant
            n == tokens@.len(),
            before == views(old(tokens)@),
            views(tokens@) == before,
            site == bracketed_year_site(before),
            forall|j: int| 0 <= j < i ==> !#[trigger] site(j),
        decreases n - i,
    {
        if n - i > 2 && tokens[i].is_open_bracket() && tokens[i + 2].is_closed_bracket()
            && is_year_token(&tokens[i + 1]) {
            proof {
                lemma_first_index_found(0, n as int, site, i as int);
            }
            let element = new_element(ElementKind::Year, &tokens[i + 1]);
            claim(tokens, i + 1);
            return Some(element);
        }
        i += 1;
    }
    proof {
        lemma_first_index_absent(0, n as int, site);
    }
    let ghost lone = isolated_year_site(before);
    let mut i: usize = 0;
    while i < n
        invariant
            n == tokens@.len(),
            before == views(old(tokens)@),
            views(tokens@) == before,
            lone == isolated_year_site(before),
            at_first(before, bracketed_year_site(before), bracketed_year_outcome(before)) is None,
            forall|j: int| 0 <= j < i ==> !#[trigger] lone(j),
        decreases n - i,
    {
        if is_year_token(&tokens[i]) && !tokens[i].is_enclosed() && is_token_isolated(tokens, i) {
            proof {
                lemma_first_index_found(0, n as int, lone, i as int);
            }
            let element = new_element(ElementKind::Year, &tokens[i]);
            claim(tokens, i);
            return Some(element);
        }
        i += 1;
    }
    proof {
        lemma_first_index_absent(0, n as int, lone);
    }
    None
}

// ---------------------------------------------------------------------
// Dates.

/// The tokens at `i`, `i + 1` and `i + 2` write a date: an unclaimed token
/// that is a year and a month on the two sides of its first `.` or `-`, a
/// delimiter that begins with `.` or `-`, and a number that is a day.
pub open spec fn date_site(tokens: Seq<TokenView>) -> spec_fn(int) -> bool {
    |i: int|
        {
            &&& i + 2 < tokens.len()
            &&& !tokens[i].is_identified
            &&& tokens[i + 1].is_delimiter() && tokens[i + 1].value.len() > 0
                && Separators::Date.holds(tokens[i + 1].value[0])
            &&& tokens[i + 2].is_number() && day_text(tokens[i + 2].value)
            &&& split_once(tokens[i].value, Separators::Date) matches Some(p) && year_text(p.0)
                && month_text(p.1)
        }
}

/// The three tokens are claimed; their texts in a row are the date.
pub open spec fn date_outcome(tokens: Seq<TokenView>) -> spec_fn(int) -> Outcome {
    |i: int|
        Outcome {
            tokens: claim_range(tokens, i, i + 3),
            emitted: seq![
                element_with(
                    ElementKind::Date,
                    tokens[i].value + tokens[i + 1].value + tokens[i + 2].value,
                    tokens[i],
                ),
            ],
        }
}

/// What the search for a date does: the first three tokens in a row that
/// write one.
pub open spec fn date(tokens: Seq<TokenView>) -> Option<Outcome> {
    at_first(tokens, date_site(tokens), date_outcome(tokens))
}

fn is_date_at(tokens: &[Token], i: usize) -> (r: bool)
    requires
        i < tokens@.len(),
    ensures
        r == date_site(views(tokens@))(i as int),
{
    let n = tokens.len();
    if n - i <= 2 || tokens[i].is_identified() {
        return false;
    }
    let delimiter = &tokens[i + 1];
    let day = &tokens[i + 2];
    let separates = delimiter.is_delimiter() && match crate::text::first_char(delimiter.value()) {
        Some(c) => Separators::Date.contains(c),
        None => false,
    };
    if !(separates && day.is_number() && is_day(day.value())) {
        return false;
    }
    let value = tokens[i].value();
    let length = value.unicode_len();
    match find_separator(value, Separators::Date) {
        Some(k) => is_year(value.substring_char(0, k)) && is_month(
            value.substring_char(k + 1, length),
        ),
        None => false,
    }
}

/// Looks for a date written as year, month and day.
pub fn parse_date(tokens: &mut [Token]) -> (r: Option<Element>)
    ensures
        final(tokens)@.len() == old(tokens)@.len(),
        applied_one(
            date(views(old(tokens)@)),
            element_option_view(r),
            views(old(tokens)@),
            views(final(tokens)@),
        ),
        date(views(old(tokens)@)) matches Some(o) ==> disciplined(
            views(old(tokens)@),
            o.tokens,
            o.emitted,
        ),
{
    let n = tokens.len();
    let ghost before = views(tokens@);
    let ghost site = date_site(before);
    let mut i: usize = 0;
    while i < n
        invariant
            n == tokens@.len(),
            before == views(old(tokens)@),
            views(tokens@) == before,
            site == date_site(before),
            forall|j: int| 0 <= j < i ==> !#[trigger] site(j),
        decreases n - i,
    {
        if is_date_at(tokens, i) {
            proof {
                lemma_first_index_found(0, n as int, site, i as int);
            }
            let mut value = String::from_str(tokens[i].value());
            value.append(tokens[i + 1].value());
            value.append(tokens[i + 2].value());
            let element = Element {
                kind: ElementKind::Date,
                value,
                position: tokens[i].position(),
            };
            claim_span(tokens, i, i + 3);
            return Some(element);
        }
        i += 1;
    }
    proof {
        lemma_first_index_absent(0, n as int, site);
    }
    None
}

} // verus!
