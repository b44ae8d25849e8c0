//! Tests that several extractors share.

use vstd::prelude::*;
use crate::text::{all_digits, is_all_digits};
use crate::token::{views, Token, TokenView};
use crate::utils::{
    find_next_token, find_prev_token, next_token, prev_token, text_view, TokenTest,
};

verus! {

/// A token is isolated where the nearest tokens on its two sides that are
/// not delimiters are both brackets.
pub open spec fn token_isolated(tokens: Seq<TokenView>, index: int) -> bool {
    &&& 0 <= index < tokens.len()
    &&& prev_token(tokens, index, TokenTest::NotDelimiter) matches Some(p) && tokens[p].is_bracket()
    &&& next_token(tokens, index + 1, TokenTest::NotDelimiter) matches Some(n)
        && tokens[n].is_bracket()
}

/// An episode number: one to four ASCII digits.
pub open spec fn valid_episode_number(s: Seq<char>) -> bool {
    1 <= s.len() <= 4 && all_digits(s)
}

/// One of the Japanese numerals from zero to ten, hundred and thousand.
pub open spec fn japanese_number(c: char) -> bool {
    c == '〇' || c == '一' || c == '二' || c == '三' || c == '四' || c == '五' || c == '六' || c
        == '七' || c == '八' || c == '九' || c == '十' || c == '百' || c == '千'
}

/// Every character is a Japanese numeral.
pub open spec fn all_japanese_numbers(s: Seq<char>) -> bool {
    forall|i: int| 0 <= i < s.len() ==> japanese_number(#[trigger] s[i])
}

/// An episode number as Japanese file names write it: one to four ASCII
/// digits, or one to four Japanese numerals.
pub open spec fn valid_japanese_episode(s: Seq<char>) -> bool {
    valid_episode_number(s) || (1 <= s.len() <= 4 && all_japanese_numbers(s))
}

/// The number before a counter word: where `value` ends with the character
/// `counter`, the text before it, without a leading `第`.
pub open spec fn counted(value: Seq<char>, counter: char) -> Option<Seq<char>> {
    if value.len() > 0 && value.last() == counter {
        if value.len() > 1 && value[0] == '第' {
            Some(value.subrange(1, value.len() - 1))
        } else {
            Some(value.subrange(0, value.len() - 1))
        }
    } else {
        None
    }
}

/// The number that `value` writes before the counter word `counter`.
pub fn strip_counter(value: &str, counter: char) -> (r: Option<&str>)
    ensures
        text_view(r) == counted(value@, counter),
{
    let n = value.unicode_len();
    if n > 0 && value.get_char(n - 1) == counter {
        if n > 1 && value.get_char(0) == '第' {
            Some(value.substring_char(1, n - 1))
        } else {
            Some(value.substring_char(0, n - 1))
        }
    } else {
        None
    }
}

/// Whether the token at `index` stands alone between two brackets.
pub fn is_token_isolated(tokens: &[Token], index: usize) -> (r: bool)
    ensures
        r == token_isolated(views(tokens@), index as int),
{
    if index >= tokens.len() {
        return false;
    }
    let previous = match find_prev_token(tokens, Some(index), TokenTest::NotDelimiter) {
        Some(p) => p,
        None => {
            return false;
        },
    };
    if !tokens[previous].is_bracket() {
        return false;
    }
    match find_next_token(tokens, index, true, TokenTest::NotDelimiter) {
        Some(next) => tokens[next].is_bracket(),
        None => false,
    }
}

/// Whether `s` is one to four ASCII digits.
pub fn is_valid_episode_number(s: &str) -> (r: bool)
    ensures
        r == valid_episode_number(s@),
{
    let n = s.unicode_len();
    n >= 1 && n <= 4 && is_all_digits(s)
}

pub fn is_japanese_number(ch: char) -> (r: bool)
    ensures
        r == japanese_number(ch),
{
    ch == '〇' || ch == '一' || ch == '二' || ch == '三' || ch == '四' || ch == '五' || ch == '六'
        || ch == '七' || ch == '八' || ch == '九' || ch == '十' || ch == '百' || ch == '千'
}

/// Whether `s` is an episode number in ASCII digits or in Japanese
/// numerals.
pub fn is_valid_japanese_episode(s: &str) -> (r: bool)
    ensures
        r == valid_japanese_episode(s@),
{
    if is_valid_episode_number(s) {
        return true;
    }
    let n = s.unicode_len();
    if n < 1 || n > 4 {
        return false;
    }
    let mut i: usize = 0;
    while i < n
        invariant
            i <= n == s@.len(),
            1 <= n <= 4,
            !valid_episode_number(s@),
            forall|j: int| 0 <= j < i ==> japanese_number(#[trigger] s@[j]),
        decreases n - i,
    {
        if !is_japanese_number(s.get_char(i)) {
            assert(!japanese_number(s@[i as int]));
            return false;
        }
        i += 1;
    }
    true
}

} // verus!
