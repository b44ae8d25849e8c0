//! Searches over the token buffer, and the small word tables.

use vstd::prelude::*;
use crate::keyword::KeywordKind;
use crate::search::{
    first_index, index_view, last_index, lemma_first_index_absent, lemma_first_index_found,
    lemma_last_index_absent, lemma_last_index_found,
};
use crate::text::{
    eq_ignore_ascii_case, equals, equals_ignore_ascii_case, first_char, starts_with_char,
};
use crate::token::{views, Token, TokenView};

verus! {

/// The tests by which the extractors look for a token.
#[derive(Clone, Copy, Debug, PartialEq, Eq, Structural)]
pub enum TokenTest {
    /// Any token but a delimiter.
    NotDelimiter,
    /// Any token but a delimiter, or the delimiter `&` or `~`.
    NotDelimiterOrJoiner,
    /// A free token.
    Free,
    /// A free token outside brackets.
    FreeNotEnclosed,
    /// A claimed token.
    Identified,
    /// A free token inside brackets.
    EnclosedFree,
    /// An unclaimed token inside brackets.
    EnclosedNotIdentified,
    /// An opening bracket.
    OpenBracket,
    /// An opening bracket that is not itself inside brackets.
    OpenBracketNotEnclosed,
    /// A closing bracket.
    ClosedBracket,
    /// The opening bracket written as the given character.
    OpenBracketOf(char),
    /// The closing bracket written as the given character.
    ClosedBracketOf(char),
    /// A closing bracket whose text starts with the given character.
    ClosedBracketFrom(char),
    /// A bracket whose text starts with the given character.
    BracketFrom(char),
    /// Where a title stops: an opening bracket, or a claimed token that
    /// does not carry the `Part` keyword.
    TitleEnd,
    /// A token that carries a `Type` keyword and is not the word "movie".
    TypeButMovie,
    /// A token outside brackets that is not a delimiter.
    OpenText,
}

impl TokenTest {
    /// Whether the token passes the test.
    pub open spec fn holds(self, t: TokenView) -> bool {
        match self {
            TokenTest::NotDelimiter => t.is_not_delimiter(),
            TokenTest::NotDelimiterOrJoiner => t.is_not_delimiter() || t.value == "&"@ || t.value
                == "~"@,
            TokenTest::Free => t.is_free(),
            TokenTest::FreeNotEnclosed => t.is_free() && !t.is_enclosed,
            TokenTest::Identified => t.is_identified,
            TokenTest::EnclosedFree => t.is_enclosed && t.is_free(),
            TokenTest::EnclosedNotIdentified => t.is_enclosed && !t.is_identified,
            TokenTest::OpenBracket => t.is_open_bracket(),
            TokenTest::OpenBracketNotEnclosed => !t.is_enclosed && t.is_open_bracket(),
            TokenTest::ClosedBracket => t.is_closed_bracket(),
            TokenTest::OpenBracketOf(c) => t.is_open_bracket() && t.value == seq![c],
            TokenTest::ClosedBracketOf(c) => t.is_closed_bracket() && t.value == seq![c],
            TokenTest::ClosedBracketFrom(c) => t.is_closed_bracket() && t.value.len() > 0
                && t.value[0] == c,
            TokenTest::BracketFrom(c) => t.is_bracket() && t.value.len() > 0 && t.value[0] == c,
            TokenTest::TitleEnd => t.is_open_bracket() || (t.is_identified && !t.has_keyword(
                KeywordKind::Part,
            )),
            TokenTest::TypeButMovie => t.has_keyword(KeywordKind::Type) && !eq_ignore_ascii_case(
                t.value,
                "movie"@,
            ),
            TokenTest::OpenText => !t.is_enclosed && t.is_not_delimiter(),
        }
    }

    /// Applies the test to a token.
    pub fn check(&self, t: &Token) -> (r: bool)
        ensures
            r == self.holds(t@),
    {
        match self {
            TokenTest::NotDelimiter => t.is_not_delimiter(),
            TokenTest::NotDelimiterOrJoiner => t.is_not_delimiter() || equals(t.value(), "&")
                || equals(t.value(), "~"),
            TokenTest::Free => t.is_free(),
            TokenTest::FreeNotEnclosed => t.is_free() && !t.is_enclosed(),
            TokenTest::Identified => t.is_identified(),
            TokenTest::EnclosedFree => t.is_enclosed() && t.is_free(),
            TokenTest::EnclosedNotIdentified => t.is_enclosed() && !t.is_identified(),
            TokenTest::OpenBracket => t.is_open_bracket(),
            TokenTest::OpenBracketNotEnclosed => !t.is_enclosed() && t.is_open_bracket(),
            TokenTest::ClosedBracket => t.is_closed_bracket(),
            TokenTest::OpenBracketOf(c) => t.is_open_bracket() && is_char(t.value(), *c),
            TokenTest::ClosedBracketOf(c) => t.is_closed_bracket() && is_char(t.value(), *c),
            TokenTest::ClosedBracketFrom(c) => t.is_closed_bracket() && starts_with_char(
                t.value(),
                *c,
            ),
            TokenTest::BracketFrom(c) => t.is_bracket() && starts_with_char(t.value(), *c),
            TokenTest::TitleEnd => t.is_open_bracket() || (t.is_identified() && !t.has_keyword(
                KeywordKind::Part,
            )),
            TokenTest::TypeButMovie => t.has_keyword(KeywordKind::Type)
                && !equals_ignore_ascii_case(t.value(), "movie"),
            TokenTest::OpenText => !t.is_enclosed() && t.is_not_delimiter(),
        }
    }
}

/// Whether `s` is the one character `c`.
pub fn is_char(s: &str, c: char) -> (r: bool)
    ensures
        r == (s@ == seq![c]),
{
    if s.unicode_len() == 1 && s.get_char(0) == c {
        assert(s@ =~= seq![c]);
        true
    } else {
        false
    }
}

/// The test applied to the token at an index.
pub open spec fn test_at(tokens: Seq<TokenView>, test: TokenTest) -> spec_fn(int) -> bool {
    |i: int| test.holds(tokens[i])
}

/// The first index at or after `start` whose token passes the test.
pub open spec fn next_token(tokens: Seq<TokenView>, start: int, test: TokenTest) -> Option<int> {
    first_index(start, tokens.len() as int, test_at(tokens, test))
}

/// The last index before `end` whose token passes the test.
pub open spec fn prev_token(tokens: Seq<TokenView>, end: int, test: TokenTest) -> Option<int> {
    last_index(0, end, test_at(tokens, test))
}

/// Where a forward search begins: at `from`, or after it.
pub open spec fn search_start(from: usize, skip_from: bool) -> int {
    if skip_from {
        from + 1
    } else {
        from as int
    }
}

/// Where a backward search begins: at the given index, and at the end of
/// the tokens where none is given or the index lies beyond it.
pub open spec fn search_end(upto: Option<usize>, len: int) -> int {
    match upto {
        Some(u) => if u <= len {
            u as int
        } else {
            len
        },
        None => len,
    }
}

/// The first token passing the test, then the first token after it that
/// passes the second test.
pub open spec fn pair_of(tokens: Seq<TokenView>, first: TokenTest, second: TokenTest) -> Option<
    (int, int),
> {
    match next_token(tokens, 0, first) {
        Some(a) => match next_token(tokens, a + 1, second) {
            Some(b) => Some((a, b)),
            None => None,
        },
        None => None,
    }
}

/// A pair of indices given as machine integers, as mathematical ones.
pub open spec fn pair_view(p: Option<(usize, usize)>) -> Option<(int, int)> {
    match p {
        Some((a, b)) => Some((a as int, b as int)),
        None => None,
    }
}

/// The nearest token, from `from` on, that passes the test; with
/// `skip_from` the token at `from` itself is not looked at.
pub fn find_next_token(tokens: &[Token], from: usize, skip_from: bool, test: TokenTest) -> (r:
    Option<usize>)
    ensures
        index_view(r) == next_token(views(tokens@), search_start(from, skip_from), test),
        match r {
            Some(k) => from <= k < tokens@.len() && (skip_from ==> from < k) && test.holds(
                views(tokens@)[k as int],
            ) && forall|j: int|
                search_start(from, skip_from) <= j < k ==> !test.holds(
                    #[trigger] views(tokens@)[j],
                ),
            None => forall|j: int|
                search_start(from, skip_from) <= j < tokens@.len() ==> !test.holds(
                    #[trigger] views(tokens@)[j],
                ),
        },
{
    let n = tokens.len();
    let ghost start: int = search_start(from, skip_from);
    let ghost p = test_at(views(tokens@), test);
    if from >= n {
        proof {
            lemma_first_index_absent(start, n as int, p);
        }
        return None;
    }
    let mut i: usize = if skip_from {
        from + 1
    } else {
        from
    };
    while i < n
        invariant
            from <= start <= i,
            start == search_start(from, skip_from),
            n == tokens@.len(),
            p == test_at(views(tokens@), test),
            forall|j: int| start <= j < i ==> !#[trigger] p(j),
        decreases n - i,
    {
        if test.check(&tokens[i]) {
            proof {
                lemma_first_index_found(start, n as int, p, i as int);
                assert forall|j: int| start <= j < i implies !test.holds(
                    #[trigger] views(tokens@)[j],
                ) by {
                    assert(!p(j));
                }
            }
            return Some(i);
        }
        i += 1;
    }
    proof {
        lemma_first_index_absent(start, n as int, p);
        assert forall|j: int| start <= j < n implies !test.holds(#[trigger] views(tokens@)[j]) by {
            assert(!p(j));
        }
    }
    None
}

/// The nearest token before `upto` that passes the test; without `upto`,
/// the search begins at the end of the tokens.
pub fn find_prev_token(tokens: &[Token], upto: Option<usize>, test: TokenTest) -> (r: Option<
    usize,
>)
    ensures
        index_view(r) == prev_token(
            views(tokens@),
            search_end(upto, tokens@.len() as int),
            test,
        ),
        match r {
            Some(k) => k < search_end(upto, tokens@.len() as int) && test.holds(
                views(tokens@)[k as int],
            ) && forall|j: int|
                k < j < search_end(upto, tokens@.len() as int) ==> !test.holds(
                    #[trigger] views(tokens@)[j],
                ),
            None => forall|j: int|
                0 <= j < search_end(upto, tokens@.len() as int) ==> !test.holds(
                    #[trigger] views(tokens@)[j],
                ),
        },
{
    let n = tokens.len();
    let end: usize = match upto {
        Some(u) => if u <= n {
            u
        } else {
            n
        },
        None => n,
    };
    let ghost p = test_at(views(tokens@), test);
    let mut i: usize = end;
    while i > 0
        invariant
            i <= end <= n,
            end == search_end(upto, n as int),
            n == tokens@.len(),
            p == test_at(views(tokens@), test),
            forall|j: int| i <= j < end ==> !#[trigger] p(j),
        decreases i,
    {
        i -= 1;
        if test.check(&tokens[i]) {
            proof {
                lemma_last_index_found(0, end as int, p, i as int);
                assert forall|j: int| i < j < end implies !test.holds(
                    #[trigger] views(tokens@)[j],
                ) by {
                    assert(!p(j));
                }
            }
            return Some(i);
        }
    }
    proof {
        lemma_last_index_absent(0, end as int, p);
        assert forall|j: int| 0 <= j < end implies !test.holds(#[trigger] views(tokens@)[j]) by {
            assert(!p(j));
        }
    }
    None
}

/// The first token that passes `first`, and the first one after it that
/// passes `second`.
pub fn find_pair(tokens: &[Token], first: TokenTest, second: TokenTest) -> (r: Option<
    (usize, usize),
>)
    ensures
        pair_view(r) == pair_of(views(tokens@), first, second),
        r matches Some((a, b)) ==> a < b < tokens@.len(),
{
    match find_next_token(tokens, 0, false, first) {
        Some(a) => match find_next_token(tokens, a, true, second) {
            Some(b) => Some((a, b)),
            None => None,
        },
        None => None,
    }
}

/// How many of the tokens `lo..hi` pass the test.
pub open spec fn count_tokens(tokens: Seq<TokenView>, lo: int, hi: int, test: TokenTest) -> nat
    decreases hi - lo,
{
    if lo >= hi {
        0
    } else {
        count_tokens(tokens, lo, hi - 1, test) + if test.holds(tokens[hi - 1]) {
            1nat
        } else {
            0nat
        }
    }
}

/// None of the tokens `from..to` is claimed.
pub open spec fn none_identified(tokens: Seq<TokenView>, from: int, to: int) -> bool {
    forall|i: int| from <= i < to ==> !(#[trigger] tokens[i]).is_identified
}

/// Each of the tokens `from..to` is unclaimed or carries the `Part`
/// keyword.
pub open spec fn unclaimed_but_parts(tokens: Seq<TokenView>, from: int, to: int) -> bool {
    forall|i: int|
        from <= i < to ==> !(#[trigger] tokens[i]).is_identified || tokens[i].has_keyword(
            KeywordKind::Part,
        )
}

/// Counts the tokens `lo..hi` that pass the test.
pub(crate) fn count_matching(tokens: &[Token], lo: usize, hi: usize, test: TokenTest) -> (r: usize)
    requires
        lo <= hi <= tokens@.len(),
    ensures
        r == count_tokens(views(tokens@), lo as int, hi as int, test),
        r <= hi - lo,
{
    let mut count: usize = 0;
    let mut i: usize = lo;
    while i < hi
        invariant
            lo <= i <= hi <= tokens@.len(),
            count == count_tokens(views(tokens@), lo as int, i as int, test),
            count <= i - lo,
        decreases hi - i,
    {
        if test.check(&tokens[i]) {
            count += 1;
        }
        i += 1;
    }
    count
}

/// Whether none of the tokens `from..to` is claimed.
pub(crate) fn is_unclaimed_span(tokens: &[Token], from: usize, to: usize) -> (r: bool)
    requires
        from <= to <= tokens@.len(),
    ensures
        r == none_identified(views(tokens@), from as int, to as int),
{
    match find_next_token(tokens, from, false, TokenTest::Identified) {
        Some(k) => {
            if k < to {
                assert(views(tokens@)[k as int].is_identified);
                false
            } else {
                true
            }
        },
        None => true,
    }
}

/// The value of an optional piece of text.
pub open spec fn text_view(s: Option<&str>) -> Option<Seq<char>> {
    match s {
        Some(s) => Some(s@),
        None => None,
    }
}

/// The number that an English ordinal word from "first" to "thirteenth"
/// names, as decimal text. The word is read without regard to case.
pub open spec fn ordinal_number(s: Seq<char>) -> Option<Seq<char>> {
    if eq_ignore_ascii_case(s, "first"@) {
        Some("1"@)
    } else if eq_ignore_ascii_case(s, "second"@) {
        Some("2"@)
    } else if eq_ignore_ascii_case(s, "third"@) {
        Some("3"@)
    } else if eq_ignore_ascii_case(s, "fourth"@) {
        Some("4"@)
    } else if eq_ignore_ascii_case(s, "fifth"@) {
        Some("5"@)
    } else if eq_ignore_ascii_case(s, "sixth"@) {
        Some("6"@)
    } else if eq_ignore_ascii_case(s, "seventh"@) {
        Some("7"@)
    } else if eq_ignore_ascii_case(s, "eighth"@) {
        Some("8"@)
    } else if eq_ignore_ascii_case(s, "ninth"@) {
        Some("9"@)
    } else if eq_ignore_ascii_case(s, "tenth"@) {
        Some("10"@)
    } else if eq_ignore_ascii_case(s, "eleventh"@) {
        Some("11"@)
    } else if eq_ignore_ascii_case(s, "twelfth"@) {
        Some("12"@)
    } else if eq_ignore_ascii_case(s, "thirteenth"@) {
        Some("13"@)
    } else {
        None
    }
}

/// Reads an English ordinal word from "first" to "thirteenth".
pub fn from_ordinal_number(s: &str) -> (r: Option<&'static str>)
    ensures
        text_view(r) == ordinal_number(s@),
{
    if equals_ignore_ascii_case(s, "first") {
        Some("1")
    } else if equals_ignore_ascii_case(s, "second") {
        Some("2")
    } else if equals_ignore_ascii_case(s, "third") {
        Some("3")
    } else if equals_ignore_ascii_case(s, "fourth") {
        Some("4")
    } else if equals_ignore_ascii_case(s, "fifth") {
        Some("5")
    } else if equals_ignore_ascii_case(s, "sixth") {
        Some("6")
    } else if equals_ignore_ascii_case(s, "seventh") {
        Some("7")
    } else if equals_ignore_ascii_case(s, "eighth") {
        Some("8")
    } else if equals_ignore_ascii_case(s, "ninth") {
        Some("9")
    } else if equals_ignore_ascii_case(s, "tenth") {
        Some("10")
    } else if equals_ignore_ascii_case(s, "eleventh") {
        Some("11")
    } else if equals_ignore_ascii_case(s, "twelfth") {
        Some("12")
    } else if equals_ignore_ascii_case(s, "thirteenth") {
        Some("13")
    } else {
        None
    }
}

/// The number that a Roman numeral from I to XIII names, as decimal text.
/// The numeral is written all in capitals or all in small letters.
pub open spec fn roman_number(s: Seq<char>) -> Option<Seq<char>> {
    if s == "I"@ || s == "i"@ {
        Some("1"@)
    } else if s == "II"@ || s == "ii"@ {
        Some("2"@)
    } else if s == "III"@ || s == "iii"@ {
        Some("3"@)
    } else if s == "IV"@ || s == "iv"@ {
        Some("4"@)
    } else if s == "V"@ || s == "v"@ {
        Some("5"@)
    } else if s == "VI"@ || s == "vi"@ {
        Some("6"@)
    } else if s == "VII"@ || s == "vii"@ {
        Some("7"@)
    } else if s == "VIII"@ || s == "viii"@ {
        Some("8"@)
    } else if s == "IX"@ || s == "ix"@ {
        Some("9"@)
    } else if s == "X"@ || s == "x"@ {
        Some("10"@)
    } else if s == "XI"@ || s == "xi"@ {
        Some("11"@)
    } else if s == "XII"@ || s == "xii"@ {
        Some("12"@)
    } else if s == "XIII"@ || s == "xiii"@ {
        Some("13"@)
    } else {
        None
    }
}

/// Reads a Roman numeral from I to XIII.
pub fn from_roman_number(s: &str) -> (r: Option<&'static str>)
    ensures
        text_view(r) == roman_number(s@),
{
    if equals(s, "I") || equals(s, "i") {
        Some("1")
    } else if equals(s, "II") || equals(s, "ii") {
        Some("2")
    } else if equals(s, "III") || equals(s, "iii") {
        Some("3")
    } else if equals(s, "IV") || equals(s, "iv") {
        Some("4")
    } else if equals(s, "V") || equals(s, "v") {
        Some("5")
    } else if equals(s, "VI") || equals(s, "vi") {
        Some("6")
    } else if equals(s, "VII") || equals(s, "vii") {
        Some("7")
    } else if equals(s, "VIII") || equals(s, "viii") {
        Some("8")
    } else if equals(s, "IX") || equals(s, "ix") {
        Some("9")
    } else if equals(s, "X") || equals(s, "x") {
        Some("10")
    } else if equals(s, "XI") || equals(s, "xi") {
        Some("11")
    } else if equals(s, "XII") || equals(s, "xii") {
        Some("12")
    } else if equals(s, "XIII") || equals(s, "xiii") {
        Some("13")
    } else {
        None
    }
}

/// The first character of a token's text, if it has one.
pub fn leading_char(t: &Token) -> (r: Option<char>)
    ensures
        r == (if t@.value.len() > 0 {
            Some(t@.value[0])
        } else {
            None
        }),
{
    first_char(t.value())
}

} // verus!
