//! The token model: what the tokenizer hands over and the extractors claim.

use vstd::prelude::*;
use vstd::string::*;
use vstd::slice::*;
use crate::keyword::{has_kind, Keyword, KeywordKind};
use crate::search::{
    first_index, last_index, lemma_first_index_absent, lemma_first_index_found,
    lemma_last_index_found,
};
use crate::text::{count_digits, digit_count};

verus! {

/// The lexical class of a token.
#[derive(Clone, Copy, Debug, PartialEq, Eq, Structural)]
pub enum TokenCategory {
    Word,
    Number,
    Delimiter,
    OpenBracket,
    ClosedBracket,
}

/// Whether `combine_tokens` keeps delimiters as they are written.
#[derive(Clone, Copy, Debug, PartialEq, Eq, Structural)]
pub enum KeepDelimiters {
    No,
    Yes,
}

/// One token of a file name.
///
/// The only change an extractor can make to a token is to claim it, through
/// [`Token::mark_known`].
#[derive(Clone, Debug)]
pub struct Token {
    value: String,
    position: usize,
    category: TokenCategory,
    keyword: Option<Keyword>,
    is_enclosed: bool,
    is_identified: bool,
}

/// The mathematical value of a [`Token`].
pub ghost struct TokenView {
    /// The literal text.
    pub value: Seq<char>,
    /// The index of the token in the sequence the tokenizer produced.
    pub position: usize,
    pub category: TokenCategory,
    /// The catalog entry of the text, if it is a keyword.
    pub keyword: Option<Keyword>,
    /// Whether the token lies between a matched pair of brackets.
    pub is_enclosed: bool,
    /// Whether an extractor has claimed the token.
    pub is_identified: bool,
}

impl TokenView {
    pub open spec fn is_delimiter(self) -> bool {
        self.category == TokenCategory::Delimiter
    }

    pub open spec fn is_not_delimiter(self) -> bool {
        self.category != TokenCategory::Delimiter
    }

    pub open spec fn is_number(self) -> bool {
        self.category == TokenCategory::Number
    }

    pub open spec fn is_open_bracket(self) -> bool {
        self.category == TokenCategory::OpenBracket
    }

    pub open spec fn is_closed_bracket(self) -> bool {
        self.category == TokenCategory::ClosedBracket
    }

    pub open spec fn is_bracket(self) -> bool {
        self.is_open_bracket() || self.is_closed_bracket()
    }

    /// Not claimed, and neither a delimiter nor a bracket.
    pub open spec fn is_free(self) -> bool {
        !self.is_identified && !self.is_delimiter() && !self.is_bracket()
    }

    /// More than half of the characters are ASCII digits.
    pub open spec fn is_mostly_numbers(self) -> bool {
        2 * digit_count(self.value) > self.value.len()
    }

    pub open spec fn has_keyword(self, kind: KeywordKind) -> bool {
        has_kind(self.keyword, kind)
    }

    /// The same token, claimed.
    pub open spec fn claimed(self) -> TokenView {
        TokenView { is_identified: true, ..self }
    }
}

impl View for Token {
    type V = TokenView;

    closed spec fn view(&self) -> TokenView {
        TokenView {
            value: self.value@,
            position: self.position,
            category: self.category,
            keyword: self.keyword,
            is_enclosed: self.is_enclosed,
            is_identified: self.is_identified,
        }
    }
}

impl Token {
    /// A token as the tokenizer produces it: not yet claimed.
    pub fn new(
        value: &str,
        position: usize,
        category: TokenCategory,
        keyword: Option<Keyword>,
        is_enclosed: bool,
    ) -> (r: Token)
        ensures
            r@ == (TokenView {
                value: value@,
                position,
                category,
                keyword,
                is_enclosed,
                is_identified: false,
            }),
    {
        Token {
            value: value.to_owned(),
            position,
            category,
            keyword,
            is_enclosed,
            is_identified: false,
        }
    }

    pub fn value(&self) -> (r: &str)
        ensures
            r@ == self@.value,
    {
        self.value.as_str()
    }

    pub fn position(&self) -> (r: usize)
        ensures
            r == self@.position,
    {
        self.position
    }

    pub fn category(&self) -> (r: TokenCategory)
        ensures
            r == self@.category,
    {
        self.category
    }

    pub fn keyword(&self) -> (r: Option<Keyword>)
        ensures
            r == self@.keyword,
    {
        self.keyword
    }

    pub fn is_enclosed(&self) -> (r: bool)
        ensures
            r == self@.is_enclosed,
    {
        self.is_enclosed
    }

    pub fn is_identified(&self) -> (r: bool)
        ensures
            r == self@.is_identified,
    {
        self.is_identified
    }

    pub fn is_delimiter(&self) -> (r: bool)
        ensures
            r == self@.is_delimiter(),
    {
        self.category == TokenCategory::Delimiter
    }

    pub fn is_not_delimiter(&self) -> (r: bool)
        ensures
            r == self@.is_not_delimiter(),
    {
        self.category != TokenCategory::Delimiter
    }

    pub fn is_number(&self) -> (r: bool)
        ensures
            r == self@.is_number(),
    {
        self.category == TokenCategory::Number
    }

    pub fn is_open_bracket(&self) -> (r: bool)
        ensures
            r == self@.is_open_bracket(),
    {
        self.category == TokenCategory::OpenBracket
    }

    pub fn is_closed_bracket(&self) -> (r: bool)
        ensures
            r == self@.is_closed_bracket(),
    {
        self.category == TokenCategory::ClosedBracket
    }

    pub fn is_bracket(&self) -> (r: bool)
        ensures
            r == self@.is_bracket(),
    {
        self.is_open_bracket() || self.is_closed_bracket()
    }

    pub fn is_free(&self) -> (r: bool)
        ensures
            r == self@.is_free(),
    {
        !self.is_identified && !self.is_delimiter() && !self.is_bracket()
    }

    pub fn is_mostly_numbers(&self) -> (r: bool)
        ensures
            r == self@.is_mostly_numbers(),
    {
        let digits = count_digits(self.value.as_str());
        let total = self.value.as_str().unicode_len();
        digits > total - digits
    }

    pub fn has_keyword(&self, kind: KeywordKind) -> (r: bool)
        ensures
            r == self@.has_keyword(kind),
    {
        match self.keyword {
            Some(k) => k.kind == kind,
            None => false,
        }
    }

    /// Claims the token, which hides it from the extractors that run later.
    pub fn mark_known(&mut self)
        ensures
            final(self)@ == old(self)@.claimed(),
    {
        self.is_identified = true;
    }
}

/// The values of a sequence of tokens, in order.
pub open spec fn views(s: Seq<Token>) -> Seq<TokenView> {
    s.map_values(|t: Token| t@)
}

/// The tokens with the one at `i` claimed.
pub open spec fn claim_at(tokens: Seq<TokenView>, i: int) -> Seq<TokenView> {
    tokens.update(i, tokens[i].claimed())
}

/// The tokens with those at `from..to` claimed.
pub open spec fn claim_range(tokens: Seq<TokenView>, from: int, to: int) -> Seq<TokenView> {
    Seq::new(
        tokens.len(),
        |i: int|
            if from <= i < to {
                tokens[i].claimed()
            } else {
                tokens[i]
            },
    )
}

/// `after` is `before` with some tokens claimed and nothing else changed.
pub open spec fn claims_only(before: Seq<TokenView>, after: Seq<TokenView>) -> bool {
    &&& after.len() == before.len()
    &&& forall|i: int|
        0 <= i < before.len() ==> #[trigger] after[i] == before[i] || after[i]
            == before[i].claimed()
}

/// Every token's position is its index in the sequence.
pub open spec fn positions_are_indices(tokens: Seq<TokenView>) -> bool {
    forall|i: int| 0 <= i < tokens.len() ==> (#[trigger] tokens[i]).position == i
}

/// Claims the token at `i`.
pub(crate) fn claim(tokens: &mut [Token], i: usize)
    requires
        i < old(tokens)@.len(),
    ensures
        final(tokens)@.len() == old(tokens)@.len(),
        views(final(tokens)@) == claim_at(views(old(tokens)@), i as int),
{
    tokens[i].mark_known();
    assert(views(tokens@) =~= claim_at(views(old(tokens)@), i as int));
}

/// Claims the tokens `from..to`.
pub(crate) fn claim_span(tokens: &mut [Token], from: usize, to: usize)
    requires
        from <= to <= old(tokens)@.len(),
    ensures
        final(tokens)@.len() == old(tokens)@.len(),
        views(final(tokens)@) == claim_range(views(old(tokens)@), from as int, to as int),
{
    let ghost before = views(tokens@);
    let mut i: usize = from;
    assert(views(tokens@) =~= claim_range(before, from as int, i as int));
    while i < to
        invariant
            from <= i <= to <= tokens@.len(),
            tokens@.len() == before.len(),
            views(tokens@) == claim_range(before, from as int, i as int),
        decreases to - i,
    {
        claim(tokens, i);
        assert(views(tokens@) =~= claim_range(before, from as int, i + 1));
        i += 1;
    }
}

/// A dash: the ASCII hyphen or one of the Unicode dashes U+2010 to U+2015.
pub open spec fn spec_is_dash(c: char) -> bool {
    c == '-' || ('\u{2010}' <= c && c <= '\u{2015}')
}

#[verifier::when_used_as_spec(spec_is_dash)]
pub fn is_dash(c: char) -> (r: bool)
    ensures
        r == spec_is_dash(c),
{
    c == '-' || (c >= '\u{2010}' && c <= '\u{2015}')
}

/// The closing bracket that pairs with an opening one.
pub open spec fn spec_opposite_bracket(c: char) -> Option<char> {
    if c == '(' {
        Some(')')
    } else if c == '[' {
        Some(']')
    } else if c == '{' {
        Some('}')
    } else if c == '「' {
        Some('」')
    } else if c == '『' {
        Some('』')
    } else if c == '（' {
        Some('）')
    } else if c == '【' {
        Some('】')
    } else if c == '《' {
        Some('》')
    } else if c == '〈' {
        Some('〉')
    } else {
        None
    }
}

#[verifier::when_used_as_spec(spec_opposite_bracket)]
pub fn opposite_bracket(c: char) -> (r: Option<char>)
    ensures
        r == spec_opposite_bracket(c),
{
    if c == '(' {
        Some(')')
    } else if c == '[' {
        Some(']')
    } else if c == '{' {
        Some('}')
    } else if c == '「' {
        Some('」')
    } else if c == '『' {
        Some('』')
    } else if c == '（' {
        Some('）')
    } else if c == '【' {
        Some('】')
    } else if c == '《' {
        Some('》')
    } else if c == '〈' {
        Some('〉')
    } else {
        None
    }
}

/// The text gathered so far, with one more token added to it: a delimiter
/// that is not kept adds one space, and none at the start or after a space;
/// any other token adds its text.
pub open spec fn append_token(acc: Seq<char>, t: TokenView, keep: KeepDelimiters) -> Seq<char> {
    if t.is_delimiter() && keep == KeepDelimiters::No {
        if acc.len() == 0 || acc.last() == ' ' {
            acc
        } else {
            acc.push(' ')
        }
    } else {
        acc + t.value
    }
}

/// The text gathered from the first `n` tokens.
pub open spec fn gathered(tokens: Seq<TokenView>, keep: KeepDelimiters, n: int) -> Seq<char>
    decreases n,
{
    if n <= 0 {
        Seq::empty()
    } else {
        append_token(gathered(tokens, keep, n - 1), tokens[n - 1], keep)
    }
}

/// The test "the character at this index is not a space".
pub open spec fn not_space_at(s: Seq<char>) -> spec_fn(int) -> bool {
    |i: int| s[i] != ' '
}

/// The text without the spaces at its two ends.
pub open spec fn trimmed(s: Seq<char>) -> Seq<char> {
    match (
        first_index(0, s.len() as int, not_space_at(s)),
        last_index(0, s.len() as int, not_space_at(s)),
    ) {
        (Some(a), Some(b)) => s.subrange(a, b + 1),
        _ => Seq::empty(),
    }
}

/// The text of a run of tokens: their texts joined, every run of delimiters
/// standing as one space unless delimiters are kept, without the spaces at
/// the two ends.
pub open spec fn combined(tokens: Seq<TokenView>, keep: KeepDelimiters) -> Seq<char> {
    trimmed(gathered(tokens, keep, tokens.len() as int))
}

/// `s` without the spaces at its two ends.
pub fn trim(s: &str) -> (r: &str)
    ensures
        r@ == trimmed(s@),
{
    let n = s.unicode_len();
    let mut a: usize = 0;
    while a < n && s.get_char(a) == ' '
        invariant
            a <= n == s@.len(),
            forall|j: int| 0 <= j < a ==> !#[trigger] not_space_at(s@)(j),
        decreases n - a,
    {
        a += 1;
    }
    if a == n {
        proof {
            lemma_first_index_absent(0, n as int, not_space_at(s@));
        }
        return s.substring_char(0, 0);
    }
    let mut b: usize = n - 1;
    while s.get_char(b) == ' '
        invariant
            a <= b < n == s@.len(),
            s@[a as int] != ' ',
            forall|j: int| b < j < n ==> !#[trigger] not_space_at(s@)(j),
        decreases b,
    {
        b -= 1;
    }
    proof {
        lemma_first_index_found(0, n as int, not_space_at(s@), a as int);
        lemma_last_index_found(0, n as int, not_space_at(s@), b as int);
    }
    s.substring_char(a, b + 1)
}

/// The text of a run of tokens, for an element's value.
pub fn combine_tokens(tokens: &[Token], keep: KeepDelimiters) -> (r: String)
    ensures
        r@ == combined(views(tokens@), keep),
{
    let mut buffer = String::new();
    let mut i: usize = 0;
    while i < tokens.len()
        invariant
            i <= tokens@.len(),
            buffer@ == gathered(views(tokens@), keep, i as int),
        decreases tokens@.len() - i,
    {
        let token = &tokens[i];
        if token.is_delimiter() && keep == KeepDelimiters::No {
            let n = buffer.as_str().unicode_len();
            if n > 0 && buffer.as_str().get_char(n - 1) != ' ' {
                let ghost before = buffer@;
                buffer.append(" ");
                proof {
                    reveal_strlit(" ");
                    assert(" "@ =~= seq![' ']);
                    assert(before + seq![' '] =~= before.push(' '));
                }
            }
        } else {
            buffer.append(token.value());
        }
        i += 1;
    }
    trim(buffer.as_str()).to_owned()
}

} // verus!
