//! Episode numbers: a cascade of recognizers, tried from the most to the
//! least specific, of which the first that applies ends the search.

use vstd::prelude::*;
use vstd::string::*;
use crate::element::{element_views, Element, ElementKind, ElementView};
use crate::keyword::KeywordKind;
use crate::parser::common::{
    counted, is_token_isolated, is_valid_episode_number, is_valid_japanese_episode,
    strip_counter, token_isolated, valid_episode_number, valid_japanese_episode,
};
use crate::parser::discipline::{disciplined};
use crate::parser::outcome::{Outcome, all_from, append_elements, applied, applied_one, at_first, element_of, element_with, new_element, new_element_with, or_else, push_element, settled, whole_token};
use crate::pattern::{
    captures, group, groups_view, regex_captures, EPISODE_PREFIX, NUMBER_SIGN_EPISODE,
    SEASON_AND_EPISODE,
};
use crate::search::{lemma_first_index_absent, lemma_first_index_found};
use crate::text::{
    eq_ignore_ascii_case, equals_ignore_ascii_case, find_separator, is_ascii_digit, is_digit,
    parse_number, parse_unsigned, split_once, Separators,
};
use crate::token::{claim, claim_at, is_dash, views, Token, TokenView};
use crate::utils::{
    find_next_token, find_pair, find_prev_token, leading_char, next_token, pair_of, prev_token,
    text_view, TokenTest,
};

verus! {

/// An episode number and its version, the version empty where none is
/// written.
pub type Numbered = (Seq<char>, Seq<char>);

/// The values of an optional pair of texts.
pub open spec fn text_pair_view(p: Option<(&str, &str)>) -> Option<Numbered> {
    match p {
        Some((a, b)) => Some((a@, b@)),
        None => None,
    }
}

/// A single episode: one to four digits, or one to four digits, `v` or `V`
/// and one digit. The result is the number and the version digit.
pub open spec fn single_episode(s: Seq<char>) -> Option<Numbered> {
    match split_once(s, Separators::Version) {
        Some((prefix, suffix)) => if valid_episode_number(prefix) && suffix.len() == 1 && is_digit(
            suffix[0],
        ) {
            Some((prefix, suffix))
        } else {
            None
        },
        None => if valid_episode_number(s) {
            Some((s, Seq::empty()))
        } else {
            None
        },
    }
}

/// A range of episodes: two single episodes on the two sides of the first
/// `-`, `~`, `&` or `+`, the first number less than the second.
pub open spec fn episode_range(s: Seq<char>) -> Option<(Numbered, Numbered)> {
    match split_once(s, Separators::Range) {
        Some((first, last)) => match (single_episode(first), single_episode(last)) {
            (Some(lower), Some(upper)) => match (
                parse_unsigned(lower.0, u16::MAX as nat),
                parse_unsigned(upper.0, u16::MAX as nat),
            ) {
                (Some(x), Some(y)) => if x < y {
                    Some((lower, upper))
                } else {
                    None
                },
                _ => None,
            },
            _ => None,
        },
        None => None,
    }
}

/// The release version read from the token `t`, where one is written.
pub open spec fn version_element(version: Seq<char>, t: TokenView) -> Seq<ElementView> {
    if version.len() > 0 {
        seq![element_with(ElementKind::ReleaseVersion, version, t)]
    } else {
        Seq::empty()
    }
}

/// The elements of a range read from the token `t`: the lower number, its
/// version, the upper number, its version.
pub open spec fn range_elements(
    kind: ElementKind,
    lower: Numbered,
    upper: Numbered,
    t: TokenView,
) -> Seq<ElementView> {
    seq![element_with(kind, lower.0, t)] + version_element(lower.1, t) + seq![
        element_with(kind, upper.0, t),
    ] + version_element(upper.1, t)
}

/// Reading the token at `index` as a range of episodes: it is claimed, and
/// the range's elements are emitted.
pub open spec fn range_outcome(tokens: Seq<TokenView>, index: int, kind: ElementKind) -> Option<
    Outcome,
> {
    if 0 <= index < tokens.len() {
        match episode_range(tokens[index].value) {
            Some((lower, upper)) => Some(
                Outcome {
                    tokens: claim_at(tokens, index),
                    emitted: range_elements(kind, lower, upper, tokens[index]),
                },
            ),
            None => None,
        }
    } else {
        None
    }
}

/// Reads `s` as a single episode with an optional version.
pub fn parse_single_episode(s: &str) -> (r: Option<(&str, &str)>)
    ensures
        text_pair_view(r) == single_episode(s@),
{
    let n = s.unicode_len();
    match find_separator(s, Separators::Version) {
        Some(k) => {
            let prefix = s.substring_char(0, k);
            let suffix = s.substring_char(k + 1, n);
            if is_valid_episode_number(prefix) && suffix.unicode_len() == 1 && is_ascii_digit(
                suffix.get_char(0),
            ) {
                Some((prefix, suffix))
            } else {
                None
            }
        },
        None => {
            if is_valid_episode_number(s) {
                let empty = s.substring_char(n, n);
                assert(empty@ =~= Seq::<char>::empty());
                Some((s, empty))
            } else {
                None
            }
        },
    }
}

/// Appends the release version read from `token`, where one is written.
fn push_version(results: &mut Vec<Element>, version: &str, token: &Token)
    ensures
        element_views(final(results)@) == element_views(old(results)@) + version_element(
            version@,
            token@,
        ),
{
    if version.unicode_len() > 0 {
        push_element(results, new_element_with(ElementKind::ReleaseVersion, version, token));
        assert(element_views(results@) =~= element_views(old(results)@) + version_element(
            version@,
            token@,
        ));
    } else {
        assert(element_views(results@) =~= element_views(old(results)@) + version_element(
            version@,
            token@,
        ));
    }
}

/// Reads the token at `index` as a range of episodes such as `01-03` or
/// `05v2&06`. Where it is one, the token is claimed and the two numbers are
/// emitted with the kind `kind`, each followed by its release version.
pub fn parse_multi_episode_range(
    tokens: &mut [Token],
    index: usize,
    results: &mut Vec<Element>,
    kind: ElementKind,
) -> (done: bool)
    ensures
        final(tokens)@.len() == old(tokens)@.len(),
        applied(
            range_outcome(views(old(tokens)@), index as int, kind),
            done,
            views(old(tokens)@),
            views(final(tokens)@),
            element_views(old(results)@),
            element_views(final(results)@),
        ),
{
    if index >= tokens.len() {
        return false;
    }
    let token = &tokens[index];
    let value = token.value();
    let n = value.unicode_len();
    let k = match find_separator(value, Separators::Range) {
        Some(k) => k,
        None => {
            return false;
        },
    };
    let (lower, low_version) = match parse_single_episode(value.substring_char(0, k)) {
        Some(p) => p,
        None => {
            return false;
        },
    };
    let (upper, up_version) = match parse_single_episode(value.substring_char(k + 1, n)) {
        Some(p) => p,
        None => {
            return false;
        },
    };
    let x = match parse_number(lower, u16::MAX) {
        Some(x) => x,
        None => {
            return false;
        },
    };
    let y = match parse_number(upper, u16::MAX) {
        Some(y) => y,
        None => {
            return false;
        },
    };
    if x >= y {
        return false;
    }
    push_element(results, new_element_with(kind, lower, token));
    push_version(results, low_version, token);
    push_element(results, new_element_with(kind, upper, token));
    push_version(results, up_version, token);
    proof {
        let t = views(old(tokens)@)[index as int];
        assert(element_views(results@) =~= element_views(old(results)@) + range_elements(
            kind,
            (lower@, low_version@),
            (upper@, up_version@),
            t,
        ));
    }
    claim(tokens, index);
    true
}


// ---------------------------------------------------------------------
// A number after an `Episode` keyword.

/// The token at `i` carries the `Episode` keyword, and the next token that
/// is not a delimiter is free, mostly digits, and a range or a number.
pub open spec fn keyword_site(tokens: Seq<TokenView>) -> spec_fn(int) -> bool {
    |i: int|
        tokens[i].is_free() && tokens[i].has_keyword(KeywordKind::Episode) && (next_token(
            tokens,
            i + 1,
            TokenTest::NotDelimiter,
        ) matches Some(n) && tokens[n].is_free() && tokens[n].is_mostly_numbers() && (
        episode_range(tokens[n].value) is Some || tokens[n].is_number()))
}

/// Keyword and number are claimed; the number is read as a range where it
/// is one, and as it stands otherwise.
pub open spec fn keyword_outcome(tokens: Seq<TokenView>, kind: ElementKind) -> spec_fn(
    int,
) -> Outcome {
    |i: int|
        {
            let n = next_token(tokens, i + 1, TokenTest::NotDelimiter).unwrap();
            match range_outcome(tokens, n, kind) {
                Some(o) => Outcome { tokens: claim_at(o.tokens, i), emitted: o.emitted },
                None => Outcome {
                    tokens: claim_at(claim_at(tokens, i), n),
                    emitted: seq![element_of(kind, tokens[n])],
                },
            }
        }
}

pub open spec fn after_keyword(tokens: Seq<TokenView>, kind: ElementKind) -> Option<Outcome> {
    at_first(tokens, keyword_site(tokens), keyword_outcome(tokens, kind))
}

fn episode_after_keyword(tokens: &mut [Token], results: &mut Vec<Element>, kind: ElementKind) -> (done:
    bool)
    ensures
        final(tokens)@.len() == old(tokens)@.len(),
        applied(
            after_keyword(views(old(tokens)@), kind),
            done,
            views(old(tokens)@),
            views(final(tokens)@),
            element_views(old(results)@),
            element_views(final(results)@),
        ),
        after_keyword(views(old(tokens)@), kind) matches Some(o) ==> disciplined(
            views(old(tokens)@),
            o.tokens,
            o.emitted,
        ),
{
    let n = tokens.len();
    let ghost before = views(tokens@);
    let ghost site = keyword_site(before);
    let mut i: usize = 0;
    while i < n
        invariant
            n == tokens@.len(),
            before == views(old(tokens)@),
            views(tokens@) == before,
            element_views(results@) == element_views(old(results)@),
            site == keyword_site(before),
            forall|j: int| 0 <= j < i ==> !#[trigger] site(j),
        decreases n - i,
    {
        if tokens[i].is_free() && tokens[i].has_keyword(KeywordKind::Episode) {
            if let Some(next) = find_next_token(tokens, i, true, TokenTest::NotDelimiter) {
                if tokens[next].is_free() && tokens[next].is_mostly_numbers() {
                    if parse_multi_episode_range(tokens, next, results, kind) {
                        proof {
                            lemma_first_index_found(0, n as int, site, i as int);
                        }
                        claim(tokens, i);
                        return true;
                    }
                    if tokens[next].is_number() {
                        proof {
                            lemma_first_index_found(0, n as int, site, i as int);
                        }
                        push_element(results, new_element(kind, &tokens[next]));
                        claim(tokens, i);
                        claim(tokens, next);
                        assert(element_views(results@) =~= element_views(old(results)@) + seq![
                            element_of(kind, before[next as int]),
                        ]);
                        return true;
                    }
                }
            }
        }
        i += 1;
    }
    proof {
        lemma_first_index_absent(0, n as int, site);
    }
    false
}

// ---------------------------------------------------------------------
// "N & M", "N ~ M", "N of M".

/// `&`, `~` or `of`.
pub open spec fn is_joiner(value: Seq<char>) -> bool {
    value == "&"@ || value == "~"@ || value == "of"@
}

/// The token at `i` is a free number; after it, past delimiters, stands
/// `&`, `~` or `of`; and the next token after that which is not a delimiter
/// is a number.
pub open spec fn joined_site(tokens: Seq<TokenView>) -> spec_fn(int) -> bool {
    |i: int|
        tokens[i].is_free() && tokens[i].is_number() && (next_token(
            tokens,
            i + 1,
            TokenTest::NotDelimiterOrJoiner,
        ) matches Some(m) && is_joiner(tokens[m].value) && (next_token(
            tokens,
            m + 1,
            TokenTest::NotDelimiter,
        ) matches Some(o) && tokens[o].is_number()))
}

/// The first number and the joiner are claimed, and the second number too
/// unless the joiner is `of`. One episode is emitted, from the first
/// number.
pub open spec fn joined_outcome(tokens: Seq<TokenView>) -> spec_fn(int) -> Outcome {
    |i: int|
        {
            let m = next_token(tokens, i + 1, TokenTest::NotDelimiterOrJoiner).unwrap();
            let o = next_token(tokens, m + 1, TokenTest::NotDelimiter).unwrap();
            let rest = if tokens[m].value == "of"@ {
                tokens
            } else {
                claim_at(tokens, o)
            };
            Outcome {
                tokens: claim_at(claim_at(rest, m), i),
                emitted: seq![element_of(ElementKind::Episode, tokens[i])],
            }
        }
}

pub open spec fn number_in_number(tokens: Seq<TokenView>) -> Option<Outcome> {
    at_first(tokens, joined_site(tokens), joined_outcome(tokens))
}

/// Looks for a number joined to another by `&`, `~` or `of`, as in
/// `01 of 24`, and reads one episode from the first of the two.
pub fn parse_number_in_number_episode(tokens: &mut [Token]) -> (r: Option<Element>)
    ensures
        final(tokens)@.len() == old(tokens)@.len(),
        applied_one(
            number_in_number(views(old(tokens)@)),
            crate::element::element_option_view(r),
            views(old(tokens)@),
            views(final(tokens)@),
        ),
        number_in_number(views(old(tokens)@)) matches Some(o) ==> disciplined(
            views(old(tokens)@),
            o.tokens,
            o.emitted,
        ),
{
    let n = tokens.len();
    let ghost before = views(tokens@);
    let ghost site = joined_site(before);
    let mut i: usize = 0;
    while i < n
        invariant
            n == tokens@.len(),
            before == views(old(tokens)@),
            views(tokens@) == before,
            site == joined_site(before),
            forall|j: int| 0 <= j < i ==> !#[trigger] site(j),
        decreases n - i,
    {
        if tokens[i].is_free() && tokens[i].is_number() {
            if let Some(middle) = find_next_token(
                tokens,
                i,
                true,
                TokenTest::NotDelimiterOrJoiner,
            ) {
                let is_of = crate::text::equals(tokens[middle].value(), "of");
                let joins = is_of || crate::text::equals(tokens[middle].value(), "&")
                    || crate::text::equals(tokens[middle].value(), "~");
                if joins {
                    if let Some(other) = find_next_token(
                        tokens,
                        middle,
                        true,
                        TokenTest::NotDelimiter,
                    ) {
                        if tokens[other].is_number() {
                            proof {
                                lemma_first_index_found(0, n as int, site, i as int);
                            }
                            let element = new_element(ElementKind::Episode, &tokens[i]);
                            if !is_of {
                                claim(tokens, other);
                            }
                            claim(tokens, middle);
                            claim(tokens, i);
                            return Some(element);
                        }
                    }
                }
            }
        }
        i += 1;
    }
    proof {
        lemma_first_index_absent(0, n as int, site);
    }
    None
}

// ---------------------------------------------------------------------
// A number with a version, as in `01v2`.

/// The token at `i` is free and a single episode with a version.
pub open spec fn versioned_site(tokens: Seq<TokenView>) -> spec_fn(int) -> bool {
    |i: int|
        tokens[i].is_free() && (single_episode(tokens[i].value) matches Some(p) && p.1.len() > 0)
}

/// The token is claimed; its number and its version are emitted.
pub open spec fn versioned_outcome(tokens: Seq<TokenView>, kind: ElementKind) -> spec_fn(
    int,
) -> Outcome {
    |i: int|
        {
            let p = single_episode(tokens[i].value).unwrap();
            Outcome {
                tokens: claim_at(tokens, i),
                emitted: seq![
                    element_with(kind, p.0, tokens[i]),
                    element_with(ElementKind::ReleaseVersion, p.1, tokens[i]),
                ],
            }
        }
}

pub open spec fn versioned(tokens: Seq<TokenView>, kind: ElementKind) -> Option<Outcome> {
    at_first(tokens, versioned_site(tokens), versioned_outcome(tokens, kind))
}

fn episode_with_version(tokens: &mut [Token], results: &mut Vec<Element>, kind: ElementKind) -> (done:
    bool)
    ensures
        final(tokens)@.len() == old(tokens)@.len(),
        applied(
            versioned(views(old(tokens)@), kind),
            done,
            views(old(tokens)@),
            views(final(tokens)@),
            element_views(old(results)@),
            element_views(final(results)@),
        ),
        versioned(views(old(tokens)@), kind) matches Some(o) ==> disciplined(
            views(old(tokens)@),
            o.tokens,
            o.emitted,
        ),
{
    let n = tokens.len();
    let ghost before = views(tokens@);
    let ghost site = versioned_site(before);
    let mut i: usize = 0;
    while i < n
        invariant
            n == tokens@.len(),
            before == views(old(tokens)@),
            views(tokens@) == before,
            element_views(results@) == element_views(old(results)@),
            site == versioned_site(before),
            forall|j: int| 0 <= j < i ==> !#[trigger] site(j),
        decreases n - i,
    {
        if tokens[i].is_free() {
            if let Some((prefix, suffix)) = parse_single_episode(tokens[i].value()) {
                if suffix.unicode_len() > 0 {
                    proof {
                        lemma_first_index_found(0, n as int, site, i as int);
                    }
                    push_element(results, new_element_with(kind, prefix, &tokens[i]));
                    push_element(
                        results,
                        new_element_with(ElementKind::ReleaseVersion, suffix, &tokens[i]),
                    );
                    assert(element_views(results@) =~= element_views(old(results)@)
                        + versioned_outcome(before, kind)(i as int).emitted);
                    claim(tokens, i);
                    return true;
                }
            }
        }
        i += 1;
    }
    proof {
        lemma_first_index_absent(0, n as int, site);
    }
    false
}

// ---------------------------------------------------------------------
// A bare range, as in `01-03`.

/// The token at `i` is free and a range of episodes.
pub open spec fn range_site(tokens: Seq<TokenView>) -> spec_fn(int) -> bool {
    |i: int| tokens[i].is_free() && episode_range(tokens[i].value) is Some
}

pub open spec fn range_at(tokens: Seq<TokenView>, kind: ElementKind) -> spec_fn(int) -> Outcome {
    |i: int| range_outcome(tokens, i, kind).unwrap()
}

pub open spec fn bare_range(tokens: Seq<TokenView>, kind: ElementKind) -> Option<Outcome> {
    at_first(tokens, range_site(tokens), range_at(tokens, kind))
}

fn episode_range_token(tokens: &mut [Token], results: &mut Vec<Element>, kind: ElementKind) -> (done:
    bool)
    ensures
        final(tokens)@.len() == old(tokens)@.len(),
        applied(
            bare_range(views(old(tokens)@), kind),
            done,
            views(old(tokens)@),
            views(final(tokens)@),
            element_views(old(results)@),
            element_views(final(results)@),
        ),
        bare_range(views(old(tokens)@), kind) matches Some(o) ==> disciplined(
            views(old(tokens)@),
            o.tokens,
            o.emitted,
        ),
{
    let n = tokens.len();
    let ghost before = views(tokens@);
    let ghost site = range_site(before);
    let mut i: usize = 0;
    while i < n
        invariant
            n == tokens@.len(),
            before == views(old(tokens)@),
            views(tokens@) == before,
            element_views(results@) == element_views(old(results)@),
            site == range_site(before),
            forall|j: int| 0 <= j < i ==> !#[trigger] site(j),
        decreases n - i,
    {
        if tokens[i].is_free() && parse_multi_episode_range(tokens, i, results, kind) {
            proof {
                lemma_first_index_found(0, n as int, site, i as int);
            }
            return true;
        }
        i += 1;
    }
    proof {
        lemma_first_index_absent(0, n as int, site);
    }
    false
}

// ---------------------------------------------------------------------
// A number before the counter word, as in `第12話`.

/// The token at `i` is free and an episode number followed by `話`.
pub open spec fn japanese_site(tokens: Seq<TokenView>) -> spec_fn(int) -> bool {
    |i: int|
        tokens[i].is_free() && (counted(tokens[i].value, '話') matches Some(p)
            && valid_japanese_episode(p))
}

/// The token is claimed; the number is emitted.
pub open spec fn japanese_outcome(tokens: Seq<TokenView>, kind: ElementKind) -> spec_fn(
    int,
) -> Outcome {
    |i: int|
        Outcome {
            tokens: claim_at(tokens, i),
            emitted: seq![element_with(kind, counted(tokens[i].value, '話').unwrap(), tokens[i])],
        }
}

pub open spec fn japanese(tokens: Seq<TokenView>, kind: ElementKind) -> Option<Outcome> {
    at_first(tokens, japanese_site(tokens), japanese_outcome(tokens, kind))
}

fn episode_japanese(tokens: &mut [Token], results: &mut Vec<Element>, kind: ElementKind) -> (done:
    bool)
    ensures
        final(tokens)@.len() == old(tokens)@.len(),
        applied(
            japanese(views(old(tokens)@), kind),
            done,
            views(old(tokens)@),
            views(final(tokens)@),
            element_views(old(results)@),
            element_views(final(results)@),
        ),
        japanese(views(old(tokens)@), kind) matches Some(o) ==> disciplined(
            views(old(tokens)@),
            o.tokens,
            o.emitted,
        ),
{
    let n = tokens.len();
    let ghost before = views(tokens@);
    let ghost site = japanese_site(before);
    let mut i: usize = 0;
    while i < n
        invariant
            n == tokens@.len(),
            before == views(old(tokens)@),
            views(tokens@) == before,
            element_views(results@) == element_views(old(results)@),
            site == japanese_site(before),
            forall|j: int| 0 <= j < i ==> !#[trigger] site(j),
        decreases n - i,
    {
        if tokens[i].is_free() {
            if let Some(prefix) = strip_counter(tokens[i].value(), '話') {
                if is_valid_japanese_episode(prefix) {
                    proof {
                        lemma_first_index_found(0, n as int, site, i as int);
                    }
                    push_element(results, new_element_with(kind, prefix, &tokens[i]));
                    assert(element_views(results@) =~= element_views(old(results)@)
                        + japanese_outcome(before, kind)(i as int).emitted);
                    claim(tokens, i);
                    return true;
                }
            }
        }
        i += 1;
    }
    proof {
        lemma_first_index_absent(0, n as int, site);
    }
    false
}

// ---------------------------------------------------------------------
// A half episode, as in `07.5`.

/// An episode number, a dot and `5`.
pub open spec fn half_episode(value: Seq<char>) -> bool {
    split_once(value, Separators::Dot) matches Some(p) && p.1 == "5"@ && valid_episode_number(p.0)
}

/// The token at `i` is free and a half episode.
pub open spec fn half_site(tokens: Seq<TokenView>) -> spec_fn(int) -> bool {
    |i: int| tokens[i].is_free() && half_episode(tokens[i].value)
}

pub open spec fn half(tokens: Seq<TokenView>, kind: ElementKind) -> Option<Outcome> {
    at_first(tokens, half_site(tokens), whole_token(tokens, kind))
}

fn is_half_episode(value: &str) -> (r: bool)
    ensures
        r == half_episode(value@),
{
    match find_separator(value, Separators::Dot) {
        Some(k) => {
            let n = value.unicode_len();
            crate::text::equals(value.substring_char(k + 1, n), "5") && is_valid_episode_number(
                value.substring_char(0, k),
            )
        },
        None => false,
    }
}

fn episode_half(tokens: &mut [Token], results: &mut Vec<Element>, kind: ElementKind) -> (done: bool)
    ensures
        final(tokens)@.len() == old(tokens)@.len(),
        applied(
            half(views(old(tokens)@), kind),
            done,
            views(old(tokens)@),
            views(final(tokens)@),
            element_views(old(results)@),
            element_views(final(results)@),
        ),
        half(views(old(tokens)@), kind) matches Some(o) ==> disciplined(
            views(old(tokens)@),
            o.tokens,
            o.emitted,
        ),
{
    let n = tokens.len();
    let ghost before = views(tokens@);
    let ghost site = half_site(before);
    let mut i: usize = 0;
    while i < n
        invariant
            n == tokens@.len(),
            before == views(old(tokens)@),
            views(tokens@) == before,
            element_views(results@) == element_views(old(results)@),
            site == half_site(before),
            forall|j: int| 0 <= j < i ==> !#[trigger] site(j),
        decreases n - i,
    {
        if tokens[i].is_free() && is_half_episode(tokens[i].value()) {
            proof {
                lemma_first_index_found(0, n as int, site, i as int);
            }
            push_element(results, new_element(kind, &tokens[i]));
            assert(element_views(results@) =~= element_views(old(results)@) + whole_token(
                before,
                kind,
            )(i as int).emitted);
            claim(tokens, i);
            return true;
        }
        i += 1;
    }
    proof {
        lemma_first_index_absent(0, n as int, site);
    }
    false
}

// ---------------------------------------------------------------------
// A part of an episode, as in `12a`.

/// One of the letters A, B, C in either case.
pub open spec fn is_part_letter(c: char) -> bool {
    c == 'A' || c == 'B' || c == 'C' || c == 'a' || c == 'b' || c == 'c'
}

/// An episode number followed by one part letter.
pub open spec fn partial_episode(value: Seq<char>) -> bool {
    value.len() > 0 && is_part_letter(value.last()) && valid_episode_number(value.drop_last())
}

/// The token at `i` is free and a partial episode, and it is not the text
/// `1a` two tokens after the text `Ver1`.
pub open spec fn partial_site(tokens: Seq<TokenView>) -> spec_fn(int) -> bool {
    |i: int|
        tokens[i].is_free() && partial_episode(tokens[i].value) && !(i > 1 && tokens[i].value
            == "1a"@ && tokens[i - 2].value == "Ver1"@)
}

pub open spec fn partial(tokens: Seq<TokenView>, kind: ElementKind) -> Option<Outcome> {
    at_first(tokens, partial_site(tokens), whole_token(tokens, kind))
}

fn is_partial_episode(value: &str) -> (r: bool)
    ensures
        r == partial_episode(value@),
{
    let n = value.unicode_len();
    if n == 0 {
        return false;
    }
    let c = value.get_char(n - 1);
    assert(value@.drop_last() =~= value@.subrange(0, n - 1));
    (c == 'A' || c == 'B' || c == 'C' || c == 'a' || c == 'b' || c == 'c')
        && is_valid_episode_number(value.substring_char(0, n - 1))
}

fn episode_partial(tokens: &mut [Token], results: &mut Vec<Element>, kind: ElementKind) -> (done:
    bool)
    ensures
        final(tokens)@.len() == old(tokens)@.len(),
        applied(
            partial(views(old(tokens)@), kind),
            done,
            views(old(tokens)@),
            views(final(tokens)@),
            element_views(old(results)@),
            element_views(final(results)@),
        ),
        partial(views(old(tokens)@), kind) matches Some(o) ==> disciplined(
            views(old(tokens)@),
            o.tokens,
            o.emitted,
        ),
{
    let n = tokens.len();
    let ghost before = views(tokens@);
    let ghost site = partial_site(before);
    let mut i: usize = 0;
    while i < n
        invariant
            n == tokens@.len(),
            before == views(old(tokens)@),
            views(tokens@) == before,
            element_views(results@) == element_views(old(results)@),
            site == partial_site(before),
            forall|j: int| 0 <= j < i ==> !#[trigger] site(j),
        decreases n - i,
    {
        if tokens[i].is_free() && is_partial_episode(tokens[i].value()) {
            let excepted = i > 1 && crate::text::equals(tokens[i].value(), "1a")
                && crate::text::equals(tokens[i - 2].value(), "Ver1");
            if !excepted {
                proof {
                    lemma_first_index_found(0, n as int, site, i as int);
                }
                push_element(results, new_element(kind, &tokens[i]));
                assert(element_views(results@) =~= element_views(old(results)@) + whole_token(
                    before,
                    kind,
                )(i as int).emitted);
                claim(tokens, i);
                return true;
            }
        }
        i += 1;
    }
    proof {
        lemma_first_index_absent(0, n as int, site);
    }
    false
}

// ---------------------------------------------------------------------
// A number after a `Type` keyword, as in `OVA 2`.

/// The first token that carries a `Type` keyword and is not "movie", where
/// the next token that is not a delimiter is a free number: the number is
/// claimed and emitted.
pub open spec fn type_neighbor(tokens: Seq<TokenView>, kind: ElementKind) -> Option<Outcome> {
    match pair_of(tokens, TokenTest::TypeButMovie, TokenTest::NotDelimiter) {
        Some((_, b)) => if tokens[b].is_free() && tokens[b].is_number() {
            Some(whole_token(tokens, kind)(b))
        } else {
            None
        },
        None => None,
    }
}

fn episode_after_type(tokens: &mut [Token], results: &mut Vec<Element>, kind: ElementKind) -> (done:
    bool)
    ensures
        final(tokens)@.len() == old(tokens)@.len(),
        applied(
            type_neighbor(views(old(tokens)@), kind),
            done,
            views(old(tokens)@),
            views(final(tokens)@),
            element_views(old(results)@),
            element_views(final(results)@),
        ),
        type_neighbor(views(old(tokens)@), kind) matches Some(o) ==> disciplined(
            views(old(tokens)@),
            o.tokens,
            o.emitted,
        ),
{
    let ghost before = views(tokens@);
    if let Some((_, b)) = find_pair(tokens, TokenTest::TypeButMovie, TokenTest::NotDelimiter) {
        if tokens[b].is_free() && tokens[b].is_number() {
            push_element(results, new_element(kind, &tokens[b]));
            assert(element_views(results@) =~= element_views(old(results)@) + whole_token(
                before,
                kind,
            )(b as int).emitted);
            claim(tokens, b);
            return true;
        }
    }
    false
}

// ---------------------------------------------------------------------
// Two isolated numbers on the two sides of a bracket.

/// A free number that is a valid episode number and isolated.
pub open spec fn isolated_number(tokens: Seq<TokenView>, i: int) -> bool {
    tokens[i].is_free() && tokens[i].is_number() && valid_episode_number(tokens[i].value)
        && token_isolated(tokens, i)
}

/// The token at `i` is an isolated number; the next token that is not a
/// delimiter is a bracket; the next after that is an isolated number too;
/// and both numbers can be read.
pub open spec fn pair_site(tokens: Seq<TokenView>) -> spec_fn(int) -> bool {
    |i: int|
        isolated_number(tokens, i) && (next_token(tokens, i + 1, TokenTest::NotDelimiter) matches Some(
            b,
        ) && tokens[b].is_bracket() && (next_token(
            tokens,
            b + 1,
            TokenTest::NotDelimiter,
        ) matches Some(o) && isolated_number(tokens, o) && parse_unsigned(
            tokens[i].value,
            u16::MAX as nat,
        ) is Some && parse_unsigned(tokens[o].value, u16::MAX as nat) is Some))
}

/// Both numbers are claimed. The greater of the two is the alternative
/// episode; where they are equal, the second is. The second number is
/// emitted first.
pub open spec fn pair_outcome(tokens: Seq<TokenView>) -> spec_fn(int) -> Outcome {
    |i: int|
        {
            let b = next_token(tokens, i + 1, TokenTest::NotDelimiter).unwrap();
            let o = next_token(tokens, b + 1, TokenTest::NotDelimiter).unwrap();
            let first = parse_unsigned(tokens[i].value, u16::MAX as nat).unwrap();
            let second = parse_unsigned(tokens[o].value, u16::MAX as nat).unwrap();
            let first_kind = if first > second {
                ElementKind::EpisodeAlt
            } else {
                ElementKind::Episode
            };
            let second_kind = if first > second {
                ElementKind::Episode
            } else {
                ElementKind::EpisodeAlt
            };
            Outcome {
                tokens: claim_at(claim_at(tokens, o), i),
                emitted: seq![
                    element_of(second_kind, tokens[o]),
                    element_of(first_kind, tokens[i]),
                ],
            }
        }
}

pub open spec fn isolated_pair(tokens: Seq<TokenView>) -> Option<Outcome> {
    at_first(tokens, pair_site(tokens), pair_outcome(tokens))
}

fn is_isolated_number(tokens: &[Token], i: usize) -> (r: bool)
    requires
        i < tokens@.len(),
    ensures
        r == isolated_number(views(tokens@), i as int),
{
    tokens[i].is_free() && tokens[i].is_number() && is_valid_episode_number(tokens[i].value())
        && is_token_isolated(tokens, i)
}

fn episode_isolated_pair(tokens: &mut [Token], results: &mut Vec<Element>) -> (done: bool)
    ensures
        final(tokens)@.len() == old(tokens)@.len(),
        applied(
            isolated_pair(views(old(tokens)@)),
            done,
            views(old(tokens)@),
            views(final(tokens)@),
            element_views(old(results)@),
            element_views(final(results)@),
        ),
        isolated_pair(views(old(tokens)@)) matches Some(o) ==> disciplined(
            views(old(tokens)@),
            o.tokens,
            o.emitted,
        ),
{
    let n = tokens.len();
    let ghost before = views(tokens@);
    let ghost site = pair_site(before);
    let mut i: usize = 0;
    while i < n
        invariant
            n == tokens@.len(),
            before == views(old(tokens)@),
            views(tokens@) == before,
            element_views(results@) == element_views(old(results)@),
            site == pair_site(before),
            forall|j: int| 0 <= j < i ==> !#[trigger] site(j),
        decreases n - i,
    {
        if is_isolated_number(tokens, i) {
            if let Some(bracket) = find_next_token(tokens, i, true, TokenTest::NotDelimiter) {
                if tokens[bracket].is_bracket() {
                    if let Some(other) = find_next_token(
                        tokens,
                        bracket,
                        true,
                        TokenTest::NotDelimiter,
                    ) {
                        if is_isolated_number(tokens, other) {
                            let first = parse_number(tokens[i].value(), u16::MAX);
                            let second = parse_number(tokens[other].value(), u16::MAX);
                            if let (Some(first), Some(second)) = (first, second) {
                                proof {
                                    lemma_first_index_found(0, n as int, site, i as int);
                                }
                                let (a, b) = if first > second {
                                    (ElementKind::EpisodeAlt, ElementKind::Episode)
                                } else {
                                    (ElementKind::Episode, ElementKind::EpisodeAlt)
                                };
                                push_element(results, new_element(b, &tokens[other]));
                                push_element(results, new_element(a, &tokens[i]));
                                assert(element_views(results@) =~= element_views(old(results)@)
                                    + pair_outcome(before)(i as int).emitted);
                                claim(tokens, other);
                                claim(tokens, i);
                                return true;
                            }
                        }
                    }
                }
            }
        }
        i += 1;
    }
    proof {
        lemma_first_index_absent(0, n as int, site);
    }
    false
}

// ---------------------------------------------------------------------
// A number after a dash, as in `- 01`.

/// The token at `i` is a delimiter that begins with a dash, and the next
/// token that is not a delimiter is a free number.
pub open spec fn dash_site(tokens: Seq<TokenView>) -> spec_fn(int) -> bool {
    |i: int|
        tokens[i].is_delimiter() && tokens[i].value.len() > 0 && is_dash(tokens[i].value[0]) && (
        next_token(tokens, i + 1, TokenTest::NotDelimiter) matches Some(n) && tokens[n].is_number()
            && tokens[n].is_free())
}

/// The number and the dash are claimed; the number is emitted.
pub open spec fn dash_outcome(tokens: Seq<TokenView>, kind: ElementKind) -> spec_fn(
    int,
) -> Outcome {
    |i: int|
        {
            let n = next_token(tokens, i + 1, TokenTest::NotDelimiter).unwrap();
            Outcome {
                tokens: claim_at(claim_at(tokens, n), i),
                emitted: seq![element_of(kind, tokens[n])],
            }
        }
}

pub open spec fn after_dash(tokens: Seq<TokenView>, kind: ElementKind) -> Option<Outcome> {
    at_first(tokens, dash_site(tokens), dash_outcome(tokens, kind))
}

fn episode_after_dash(tokens: &mut [Token], results: &mut Vec<Element>, kind: ElementKind) -> (done:
    bool)
    ensures
        final(tokens)@.len() == old(tokens)@.len(),
        applied(
            after_dash(views(old(tokens)@), kind),
            done,
            views(old(tokens)@),
            views(final(tokens)@),
            element_views(old(results)@),
            element_views(final(results)@),
        ),
        after_dash(views(old(tokens)@), kind) matches Some(o) ==> disciplined(
            views(old(tokens)@),
            o.tokens,
            o.emitted,
        ),
{
    let n = tokens.len();
    let ghost before = views(tokens@);
    let ghost site = dash_site(before);
    let mut i: usize = 0;
    while i < n
        invariant
            n == tokens@.len(),
            before == views(old(tokens)@),
            views(tokens@) == before,
            element_views(results@) == element_views(old(results)@),
            site == dash_site(before),
            forall|j: int| 0 <= j < i ==> !#[trigger] site(j),
        decreases n - i,
    {
        let dashed = tokens[i].is_delimiter() && match leading_char(&tokens[i]) {
            Some(c) => is_dash(c),
            None => false,
        };
        if dashed {
            if let Some(next) = find_next_token(tokens, i, true, TokenTest::NotDelimiter) {
                if tokens[next].is_number() && tokens[next].is_free() {
                    proof {
                        lemma_first_index_found(0, n as int, site, i as int);
                    }
                    push_element(results, new_element(kind, &tokens[next]));
                    assert(element_views(results@) =~= element_views(old(results)@)
                        + dash_outcome(before, kind)(i as int).emitted);
                    claim(tokens, next);
                    claim(tokens, i);
                    return true;
                }
            }
        }
        i += 1;
    }
    proof {
        lemma_first_index_absent(0, n as int, site);
    }
    false
}

// ---------------------------------------------------------------------
// A number alone in brackets, as in `[12]`.

/// The tokens at `i`, `i + 1` and `i + 2` are an opening bracket, a free
/// number and a closing bracket.
pub open spec fn bracketed_site(tokens: Seq<TokenView>) -> spec_fn(int) -> bool {
    |i: int|
        i + 2 < tokens.len() && tokens[i].is_open_bracket() && tokens[i + 2].is_closed_bracket()
            && tokens[i + 1].is_free() && tokens[i + 1].is_number()
}

/// The number is claimed and emitted.
pub open spec fn bracketed_outcome(tokens: Seq<TokenView>, kind: ElementKind) -> spec_fn(
    int,
) -> Outcome {
    |i: int| whole_token(tokens, kind)(i + 1)
}

pub open spec fn bracketed(tokens: Seq<TokenView>, kind: ElementKind) -> Option<Outcome> {
    at_first(tokens, bracketed_site(tokens), bracketed_outcome(tokens, kind))
}

fn episode_in_brackets(tokens: &mut [Token], results: &mut Vec<Element>, kind: ElementKind) -> (done:
    bool)
    ensures
        final(tokens)@.len() == old(tokens)@.len(),
        applied(
            bracketed(views(old(tokens)@), kind),
            done,
            views(old(tokens)@),
            views(final(tokens)@),
            element_views(old(results)@),
            element_views(final(results)@),
        ),
        bracketed(views(old(tokens)@), kind) matches Some(o) ==> disciplined(
            views(old(tokens)@),
            o.tokens,
            o.emitted,
        ),
{
    let n = tokens.len();
    let ghost before = views(tokens@);
    let ghost site = bracketed_site(before);
    let mut i: usize = 0;
    while i < n
        invariant
            n == tokens@.len(),
            before == views(old(tokens)@),
            views(tokens@) == before,
            element_views(results@) == element_views(old(results)@),
            site == bracketed_site(before),
            forall|j: int| 0 <= j < i ==> !#[trigger] site(j),
        decreases n - i,
    {
        if n - i > 2 && tokens[i].is_open_bracket() && tokens[i + 2].is_closed_bracket()
            && tokens[i + 1].is_free() && tokens[i + 1].is_number() {
            proof {
                lemma_first_index_found(0, n as int, site, i as int);
            }
            push_element(results, new_element(kind, &tokens[i + 1]));
            assert(element_views(results@) =~= element_views(old(results)@) + bracketed_outcome(
                before,
                kind,
            )(i as int).emitted);
            claim(tokens, i + 1);
            return true;
        }
        i += 1;
    }
    proof {
        lemma_first_index_absent(0, n as int, site);
    }
    false
}

// ---------------------------------------------------------------------
// The last resort: a number that nothing speaks against.

/// One of the words after which a number is no episode: "movie", "part",
/// "cour" or "no", in any case.
pub open spec fn guard_word(value: Seq<char>) -> bool {
    eq_ignore_ascii_case(value, "movie"@) || eq_ignore_ascii_case(value, "part"@)
        || eq_ignore_ascii_case(value, "cour"@) || eq_ignore_ascii_case(value, "no"@)
}

/// The token at `index` comes after a dot: the search to its left for a
/// token that is not a delimiter ends on the delimiter `.`.
pub open spec fn follows_dot(tokens: Seq<TokenView>, index: int) -> bool {
    prev_token(tokens, index, TokenTest::NotDelimiter) matches Some(p) && tokens[p].is_delimiter()
        && tokens[p].value == "."@
}

/// The token `p` before a number speaks against the number.
pub open spec fn bad_neighbor(tokens: Seq<TokenView>, p: int) -> bool {
    (tokens[p].is_free() && guard_word(tokens[p].value)) || follows_dot(tokens, p)
        || tokens[p].value == "]"@
}

/// The token at `i` is a free number outside brackets, not the first text
/// outside brackets; its neighbour on the left does not speak against it;
/// its neighbour on the right does not come after a dot; and its two
/// neighbours are not both free. The neighbours are the nearest tokens that
/// are not delimiters.
pub open spec fn last_site(tokens: Seq<TokenView>) -> spec_fn(int) -> bool {
    |i: int|
        {
            let previous = prev_token(tokens, i, TokenTest::NotDelimiter);
            let next = next_token(tokens, i + 1, TokenTest::NotDelimiter);
            &&& 1 <= i
            &&& tokens[i].is_free() && tokens[i].is_number() && !tokens[i].is_enclosed
            &&& prev_token(tokens, i, TokenTest::OpenText) is Some
            &&& !(previous matches Some(p) && bad_neighbor(tokens, p))
            &&& !(next matches Some(q) && follows_dot(tokens, q))
            &&& !(previous matches Some(p) && next matches Some(q) && tokens[p].is_free()
                && tokens[q].is_free())
        }
}

pub open spec fn last_resort(tokens: Seq<TokenView>, kind: ElementKind) -> Option<Outcome> {
    at_first(tokens, last_site(tokens), whole_token(tokens, kind))
}

fn is_guard_word(value: &str) -> (r: bool)
    ensures
        r == guard_word(value@),
{
    equals_ignore_ascii_case(value, "movie") || equals_ignore_ascii_case(value, "part")
        || equals_ignore_ascii_case(value, "cour") || equals_ignore_ascii_case(value, "no")
}

fn is_after_dot(tokens: &[Token], index: usize) -> (r: bool)
    requires
        index < tokens@.len(),
    ensures
        r == follows_dot(views(tokens@), index as int),
{
    match find_prev_token(tokens, Some(index), TokenTest::NotDelimiter) {
        Some(p) => tokens[p].is_delimiter() && crate::text::equals(tokens[p].value(), "."),
        None => false,
    }
}

fn is_last_site(tokens: &[Token], i: usize) -> (r: bool)
    requires
        i < tokens@.len(),
    ensures
        r == last_site(views(tokens@))(i as int),
{
    if i < 1 || !(tokens[i].is_free() && tokens[i].is_number() && !tokens[i].is_enclosed()) {
        return false;
    }
    if find_prev_token(tokens, Some(i), TokenTest::OpenText).is_none() {
        return false;
    }
    let previous = find_prev_token(tokens, Some(i), TokenTest::NotDelimiter);
    if let Some(p) = previous {
        if (tokens[p].is_free() && is_guard_word(tokens[p].value())) || is_after_dot(tokens, p)
            || crate::text::equals(tokens[p].value(), "]") {
            return false;
        }
    }
    let next = find_next_token(tokens, i, true, TokenTest::NotDelimiter);
    if let Some(q) = next {
        if is_after_dot(tokens, q) {
            return false;
        }
    }
    if let (Some(p), Some(q)) = (previous, next) {
        if tokens[p].is_free() && tokens[q].is_free() {
            return false;
        }
    }
    true
}

fn episode_last_resort(tokens: &mut [Token], results: &mut Vec<Element>, kind: ElementKind) -> (done:
    bool)
    ensures
        final(tokens)@.len() == old(tokens)@.len(),
        applied(
            last_resort(views(old(tokens)@), kind),
            done,
            views(old(tokens)@),
            views(final(tokens)@),
            element_views(old(results)@),
            element_views(final(results)@),
        ),
        last_resort(views(old(tokens)@), kind) matches Some(o) ==> disciplined(
            views(old(tokens)@),
            o.tokens,
            o.emitted,
        ),
{
    let n = tokens.len();
    let ghost before = views(tokens@);
    let ghost site = last_site(before);
    let mut i: usize = 0;
    while i < n
        invariant
            n == tokens@.len(),
            before == views(old(tokens)@),
            views(tokens@) == before,
            element_views(results@) == element_views(old(results)@),
            site == last_site(before),
            forall|j: int| 0 <= j < i ==> !#[trigger] site(j),
        decreases n - i,
    {
        if is_last_site(tokens, i) {
            proof {
                lemma_first_index_found(0, n as int, site, i as int);
            }
            push_element(results, new_element(kind, &tokens[i]));
            assert(element_views(results@) =~= element_views(old(results)@) + whole_token(
                before,
                kind,
            )(i as int).emitted);
            claim(tokens, i);
            return true;
        }
        i += 1;
    }
    proof {
        lemma_first_index_absent(0, n as int, site);
    }
    false
}

// ---------------------------------------------------------------------
// The forms that regular expressions read.

/// The values of optional elements.
pub open spec fn elements_option_view(r: Option<Vec<Element>>) -> Option<Seq<ElementView>> {
    match r {
        Some(v) => Some(element_views(v@)),
        None => None,
    }
}

/// The element read from the token `t` for a capture group, where the
/// group took part in the match.
pub open spec fn group_element(
    kind: ElementKind,
    groups: Seq<Option<Seq<char>>>,
    i: int,
    t: TokenView,
) -> Seq<ElementView> {
    match group(groups, i) {
        Some(v) => seq![element_with(kind, v, t)],
        None => Seq::empty(),
    }
}

/// The elements of a match of the prefixed form: the episode from group 1,
/// which must be there, and the release version from group 2.
pub open spec fn prefixed_elements(
    groups: Option<Seq<Option<Seq<char>>>>,
    kind: ElementKind,
    t: TokenView,
) -> Option<Seq<ElementView>> {
    match groups {
        Some(g) => if group(g, 1) is Some {
            Some(group_element(kind, g, 1, t) + group_element(ElementKind::ReleaseVersion, g, 2, t))
        } else {
            None
        },
        None => None,
    }
}

/// The elements of a match of the form with a number sign: the episodes
/// from groups 1 and 2, of which the first must be there, and the release
/// version from group 3.
pub open spec fn number_sign_elements(
    groups: Option<Seq<Option<Seq<char>>>>,
    kind: ElementKind,
    t: TokenView,
) -> Option<Seq<ElementView>> {
    match groups {
        Some(g) => if group(g, 1) is Some {
            Some(
                group_element(kind, g, 1, t) + group_element(kind, g, 2, t) + group_element(
                    ElementKind::ReleaseVersion,
                    g,
                    3,
                    t,
                ),
            )
        } else {
            None
        },
        None => None,
    }
}

/// The elements of a match of the form with season and episode: the
/// seasons from groups 1 and 2, the episodes from groups 3 and 4, and the
/// release version from group 5. Groups 1 and 3 must be there, and group 1
/// must write a number from 1 to 255.
pub open spec fn season_episode_elements(
    groups: Option<Seq<Option<Seq<char>>>>,
    kind: ElementKind,
    t: TokenView,
) -> Option<Seq<ElementView>> {
    match groups {
        Some(g) => if (group(g, 1) matches Some(season) && (parse_unsigned(
            season,
            255,
        ) matches Some(number) && number != 0)) && group(g, 3) is Some {
            Some(
                group_element(ElementKind::Season, g, 1, t) + group_element(
                    ElementKind::Season,
                    g,
                    2,
                    t,
                ) + group_element(kind, g, 3, t) + group_element(kind, g, 4, t) + group_element(
                    ElementKind::ReleaseVersion,
                    g,
                    5,
                    t,
                ),
            )
        } else {
            None
        },
        None => None,
    }
}

/// The text of the capture group `i`, where it took part in the match.
pub fn group_text(groups: &Vec<Option<String>>, i: usize) -> (r: Option<&str>)
    ensures
        text_view(r) == group(groups_view(Some(*groups)).unwrap(), i as int),
{
    if i < groups.len() {
        match &groups[i] {
            Some(s) => Some(s.as_str()),
            None => None,
        }
    } else {
        None
    }
}

/// Appends the element read from `token` for the capture group `i`.
fn push_group(
    elements: &mut Vec<Element>,
    kind: ElementKind,
    groups: &Vec<Option<String>>,
    i: usize,
    token: &Token,
)
    requires
        all_from(element_views(old(elements)@), token@),
    ensures
        element_views(final(elements)@) == element_views(old(elements)@) + group_element(
            kind,
            groups_view(Some(*groups)).unwrap(),
            i as int,
            token@,
        ),
        all_from(element_views(final(elements)@), token@),
{
    let ghost g = groups_view(Some(*groups)).unwrap();
    match group_text(groups, i) {
        Some(text) => {
            push_element(elements, new_element_with(kind, text, token));
            assert(element_views(elements@) =~= element_views(old(elements)@) + group_element(
                kind,
                g,
                i as int,
                token@,
            ));
        },
        None => {
            assert(element_views(elements@) =~= element_views(old(elements)@) + group_element(
                kind,
                g,
                i as int,
                token@,
            ));
        },
    }
}

/// Reads the capture groups of the prefixed form, as in `EP12v2`, for the
/// token they were found in.
pub fn read_prefixed(groups: Option<Vec<Option<String>>>, kind: ElementKind, token: &Token) -> (r:
    Option<Vec<Element>>)
    ensures
        elements_option_view(r) == prefixed_elements(groups_view(groups), kind, token@),
        r matches Some(v) ==> all_from(element_views(v@), token@),
{
    let groups = match groups {
        Some(g) => g,
        None => {
            return None;
        },
    };
    if group_text(&groups, 1).is_none() {
        return None;
    }
    let mut elements: Vec<Element> = Vec::new();
    push_group(&mut elements, kind, &groups, 1, token);
    push_group(&mut elements, ElementKind::ReleaseVersion, &groups, 2, token);
    proof {
        let g = groups_view(Some(groups)).unwrap();
        assert(element_views(elements@) =~= group_element(kind, g, 1, token@) + group_element(
            ElementKind::ReleaseVersion,
            g,
            2,
            token@,
        ));
    }
    Some(elements)
}

/// Reads the capture groups of the form with a number sign, as in
/// `#12-15`, for the token they were found in.
pub fn read_number_sign(groups: Option<Vec<Option<String>>>, kind: ElementKind, token: &Token) -> (r:
    Option<Vec<Element>>)
    ensures
        elements_option_view(r) == number_sign_elements(groups_view(groups), kind, token@),
        r matches Some(v) ==> all_from(element_views(v@), token@),
{
    let groups = match groups {
        Some(g) => g,
        None => {
            return None;
        },
    };
    if group_text(&groups, 1).is_none() {
        return None;
    }
    let mut elements: Vec<Element> = Vec::new();
    push_group(&mut elements, kind, &groups, 1, token);
    push_group(&mut elements, kind, &groups, 2, token);
    push_group(&mut elements, ElementKind::ReleaseVersion, &groups, 3, token);
    proof {
        let g = groups_view(Some(groups)).unwrap();
        assert(element_views(elements@) =~= group_element(kind, g, 1, token@) + group_element(
            kind,
            g,
            2,
            token@,
        ) + group_element(ElementKind::ReleaseVersion, g, 3, token@));
    }
    Some(elements)
}

/// Reads the capture groups of the form with season and episode, as in
/// `S01E02-E03`, for the token they were found in. A season of zero is no
/// season.
pub fn read_season_episode(groups: Option<Vec<Option<String>>>, kind: ElementKind, token: &Token) -> (r:
    Option<Vec<Element>>)
    ensures
        elements_option_view(r) == season_episode_elements(groups_view(groups), kind, token@),
        r matches Some(v) ==> all_from(element_views(v@), token@),
{
    let groups = match groups {
        Some(g) => g,
        None => {
            return None;
        },
    };
    let season = match group_text(&groups, 1) {
        Some(s) => s,
        None => {
            return None;
        },
    };
    match parse_number(season, 255) {
        Some(number) => {
            if number == 0 {
                return None;
            }
        },
        None => {
            return None;
        },
    }
    if group_text(&groups, 3).is_none() {
        return None;
    }
    let mut elements: Vec<Element> = Vec::new();
    push_group(&mut elements, ElementKind::Season, &groups, 1, token);
    push_group(&mut elements, ElementKind::Season, &groups, 2, token);
    push_group(&mut elements, kind, &groups, 3, token);
    push_group(&mut elements, kind, &groups, 4, token);
    push_group(&mut elements, ElementKind::ReleaseVersion, &groups, 5, token);
    proof {
        let g = groups_view(Some(groups)).unwrap();
        assert(element_views(elements@) =~= group_element(ElementKind::Season, g, 1, token@)
            + group_element(ElementKind::Season, g, 2, token@) + group_element(kind, g, 3, token@)
            + group_element(kind, g, 4, token@) + group_element(
            ElementKind::ReleaseVersion,
            g,
            5,
            token@,
        ));
    }
    Some(elements)
}

/// The three forms.
#[derive(Clone, Copy, Debug, PartialEq, Eq, Structural)]
pub enum Form {
    Prefixed,
    SeasonAndEpisode,
    NumberSign,
}

/// The elements that a form reads from the token `t`.
pub open spec fn form_elements(form: Form, kind: ElementKind, t: TokenView) -> Option<
    Seq<ElementView>,
> {
    match form {
        Form::Prefixed => prefixed_elements(regex_captures(EPISODE_PREFIX@, t.value), kind, t),
        Form::SeasonAndEpisode => season_episode_elements(
            regex_captures(SEASON_AND_EPISODE@, t.value),
            kind,
            t,
        ),
        Form::NumberSign => number_sign_elements(
            regex_captures(NUMBER_SIGN_EPISODE@, t.value),
            kind,
            t,
        ),
    }
}

/// The token at `i` is free and of the form.
pub open spec fn form_site(tokens: Seq<TokenView>, form: Form, kind: ElementKind) -> spec_fn(
    int,
) -> bool {
    |i: int| tokens[i].is_free() && form_elements(form, kind, tokens[i]) is Some
}

/// The token is claimed; what the form reads from it is emitted.
pub open spec fn form_outcome(tokens: Seq<TokenView>, form: Form, kind: ElementKind) -> spec_fn(
    int,
) -> Outcome {
    |i: int|
        Outcome {
            tokens: claim_at(tokens, i),
            emitted: form_elements(form, kind, tokens[i]).unwrap(),
        }
}

pub open spec fn formed(tokens: Seq<TokenView>, form: Form, kind: ElementKind) -> Option<Outcome> {
    at_first(tokens, form_site(tokens, form, kind), form_outcome(tokens, form, kind))
}

/// Matches the token against the form's regular expression and reads the
/// groups.
fn read_form(form: Form, kind: ElementKind, token: &Token) -> (r: Option<Vec<Element>>)
    ensures
        elements_option_view(r) == form_elements(form, kind, token@),
        r matches Some(v) ==> all_from(element_views(v@), token@),
{
    match form {
        Form::Prefixed => read_prefixed(captures(EPISODE_PREFIX, token.value()), kind, token),
        Form::SeasonAndEpisode => read_season_episode(
            captures(SEASON_AND_EPISODE, token.value()),
            kind,
            token,
        ),
        Form::NumberSign => read_number_sign(
            captures(NUMBER_SIGN_EPISODE, token.value()),
            kind,
            token,
        ),
    }
}

fn episode_of_form(
    tokens: &mut [Token],
    results: &mut Vec<Element>,
    form: Form,
    kind: ElementKind,
) -> (done: bool)
    ensures
        final(tokens)@.len() == old(tokens)@.len(),
        applied(
            formed(views(old(tokens)@), form, kind),
            done,
            views(old(tokens)@),
            views(final(tokens)@),
            element_views(old(results)@),
            element_views(final(results)@),
        ),
        formed(views(old(tokens)@), form, kind) matches Some(o) ==> disciplined(
            views(old(tokens)@),
            o.tokens,
            o.emitted,
        ),
{
    let n = tokens.len();
    let ghost before = views(tokens@);
    let ghost site = form_site(before, form, kind);
    let mut i: usize = 0;
    while i < n
        invariant
            n == tokens@.len(),
            before == views(old(tokens)@),
            views(tokens@) == before,
            element_views(results@) == element_views(old(results)@),
            site == form_site(before, form, kind),
            forall|j: int| 0 <= j < i ==> !#[trigger] site(j),
        decreases n - i,
    {
        if tokens[i].is_free() {
            if let Some(elements) = read_form(form, kind, &tokens[i]) {
                proof {
                    lemma_first_index_found(0, n as int, site, i as int);
                }
                append_elements(results, elements);
                claim(tokens, i);
                return true;
            }
        }
        i += 1;
    }
    proof {
        lemma_first_index_absent(0, n as int, site);
    }
    false
}

// ---------------------------------------------------------------------
// The cascade.

/// The recognizers that both passes try, in their order.
pub open spec fn specific_episode(tokens: Seq<TokenView>, kind: ElementKind) -> Option<Outcome> {
    or_else(
        after_keyword(tokens, kind),
        or_else(
            formed(tokens, Form::Prefixed, kind),
            or_else(
                number_in_number(tokens),
                or_else(
                    versioned(tokens, kind),
                    or_else(
                        bare_range(tokens, kind),
                        or_else(
                            formed(tokens, Form::SeasonAndEpisode, kind),
                            or_else(
                                type_neighbor(tokens, kind),
                                or_else(
                                    formed(tokens, Form::NumberSign, kind),
                                    japanese(tokens, kind),
                                ),
                            ),
                        ),
                    ),
                ),
            ),
        ),
    )
}

/// The recognizers that only the pass for the episode itself tries, in
/// their order.
pub open spec fn guessed_episode(tokens: Seq<TokenView>, kind: ElementKind) -> Option<Outcome> {
    or_else(
        isolated_pair(tokens),
        or_else(
            after_dash(tokens, kind),
            or_else(
                half(tokens, kind),
                or_else(
                    bracketed(tokens, kind),
                    or_else(partial(tokens, kind), last_resort(tokens, kind)),
                ),
            ),
        ),
    )
}

/// What the search for an episode does: the outcome of the first
/// recognizer that applies. The guessing recognizers are tried only for the
/// kind `Episode`.
pub open spec fn episode(tokens: Seq<TokenView>, kind: ElementKind) -> Option<Outcome> {
    or_else(
        specific_episode(tokens, kind),
        if kind == ElementKind::Episode {
            guessed_episode(tokens, kind)
        } else {
            None
        },
    )
}

fn parse_specific_episode(tokens: &mut [Token], results: &mut Vec<Element>, kind: ElementKind) -> (done:
    bool)
    ensures
        final(tokens)@.len() == old(tokens)@.len(),
        applied(
            specific_episode(views(old(tokens)@), kind),
            done,
            views(old(tokens)@),
            views(final(tokens)@),
            element_views(old(results)@),
            element_views(final(results)@),
        ),
        specific_episode(views(old(tokens)@), kind) matches Some(o) ==> disciplined(
            views(old(tokens)@),
            o.tokens,
            o.emitted,
        ),
{
    if episode_after_keyword(tokens, results, kind) {
        return true;
    }
    if episode_of_form(tokens, results, Form::Prefixed, kind) {
        return true;
    }
    if let Some(number) = parse_number_in_number_episode(tokens) {
        push_element(results, number);
        assert(element_views(results@) =~= element_views(old(results)@) + seq![number@]);
        return true;
    }
    if episode_with_version(tokens, results, kind) {
        return true;
    }
    if episode_range_token(tokens, results, kind) {
        return true;
    }
    if episode_of_form(tokens, results, Form::SeasonAndEpisode, kind) {
        return true;
    }
    if episode_after_type(tokens, results, kind) {
        return true;
    }
    if episode_of_form(tokens, results, Form::NumberSign, kind) {
        return true;
    }
    episode_japanese(tokens, results, kind)
}

fn parse_guessed_episode(tokens: &mut [Token], results: &mut Vec<Element>, kind: ElementKind) -> (done:
    bool)
    ensures
        final(tokens)@.len() == old(tokens)@.len(),
        applied(
            guessed_episode(views(old(tokens)@), kind),
            done,
            views(old(tokens)@),
            views(final(tokens)@),
            element_views(old(results)@),
            element_views(final(results)@),
        ),
        guessed_episode(views(old(tokens)@), kind) matches Some(o) ==> disciplined(
            views(old(tokens)@),
            o.tokens,
            o.emitted,
        ),
{
    if episode_isolated_pair(tokens, results) {
        return true;
    }
    if episode_after_dash(tokens, results, kind) {
        return true;
    }
    if episode_half(tokens, results, kind) {
        return true;
    }
    if episode_in_brackets(tokens, results, kind) {
        return true;
    }
    if episode_partial(tokens, results, kind) {
        return true;
    }
    episode_last_resort(tokens, results, kind)
}

/// Searches the tokens for an episode number. The recognizers are tried in
/// a fixed order and the first that applies ends the search: it claims the
/// tokens it read and appends its elements, the episodes with the kind
/// `kind`. Where none applies, nothing changes.
pub fn parse_episode(tokens: &mut [Token], results: &mut Vec<Element>, kind: ElementKind)
    ensures
        final(tokens)@.len() == old(tokens)@.len(),
        settled(
            episode(views(old(tokens)@), kind),
            views(old(tokens)@),
            views(final(tokens)@),
            element_views(old(results)@),
            element_views(final(results)@),
        ),
        episode(views(old(tokens)@), kind) matches Some(o) ==> disciplined(
            views(old(tokens)@),
            o.tokens,
            o.emitted,
        ),
{
    if parse_specific_episode(tokens, results, kind) {
        return ;
    }
    if kind == ElementKind::Episode {
        parse_guessed_episode(tokens, results, kind);
    }
}

} // verus!
