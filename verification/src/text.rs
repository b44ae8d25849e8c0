//! Character and string tests shared by the extractors.
//!
//! Every function here reads a string as its sequence of characters.

use vstd::prelude::*;
use vstd::string::*;
use crate::search::{first_index, index_view, lemma_first_index_absent, lemma_first_index_found};

verus! {

/// An ASCII decimal digit.
pub open spec fn is_digit(c: char) -> bool {
    '0' <= c && c <= '9'
}

/// An ASCII hexadecimal digit, in either case.
pub open spec fn is_hex_digit(c: char) -> bool {
    is_digit(c) || ('a' <= c && c <= 'f') || ('A' <= c && c <= 'F')
}

/// Every character is an ASCII decimal digit.
pub open spec fn all_digits(s: Seq<char>) -> bool {
    forall|i: int| 0 <= i < s.len() ==> is_digit(#[trigger] s[i])
}

/// Every character is an ASCII hexadecimal digit.
pub open spec fn all_hex_digits(s: Seq<char>) -> bool {
    forall|i: int| 0 <= i < s.len() ==> is_hex_digit(#[trigger] s[i])
}

/// How many characters are ASCII decimal digits.
pub open spec fn digit_count(s: Seq<char>) -> nat
    decreases s.len(),
{
    if s.len() == 0 {
        0
    } else {
        digit_count(s.drop_last()) + if is_digit(s.last()) {
            1nat
        } else {
            0nat
        }
    }
}

/// The number that a run of decimal digits writes.
pub open spec fn decimal_value(s: Seq<char>) -> nat
    decreases s.len(),
{
    if s.len() == 0 {
        0
    } else {
        10 * decimal_value(s.drop_last()) + (s.last() as nat - '0' as nat) as nat
    }
}

/// The digits of an unsigned number: the text without one leading `+`.
pub open spec fn unsigned_digits(s: Seq<char>) -> Seq<char> {
    if s.len() > 0 && s[0] == '+' {
        s.subrange(1, s.len() as int)
    } else {
        s
    }
}

/// The number that `s` writes in decimal, where it is an optional `+`
/// followed by at least one digit and the number is at most `max`.
pub open spec fn parse_unsigned(s: Seq<char>, max: nat) -> Option<nat> {
    let d = unsigned_digits(s);
    if d.len() > 0 && all_digits(d) && decimal_value(d) <= max {
        Some(decimal_value(d))
    } else {
        None
    }
}

/// A number given as a machine integer, as a mathematical one.
pub open spec fn number_view(n: Option<u16>) -> Option<nat> {
    match n {
        Some(n) => Some(n as nat),
        None => None,
    }
}

/// The lower-case form of an ASCII letter; any other character itself.
pub open spec fn ascii_lower(c: char) -> int {
    if 'A' <= c && c <= 'Z' {
        c as int + 32
    } else {
        c as int
    }
}

/// Equality of two texts without regard to the case of ASCII letters.
pub open spec fn eq_ignore_ascii_case(a: Seq<char>, b: Seq<char>) -> bool {
    a.len() == b.len() && forall|i: int|
        0 <= i < a.len() ==> ascii_lower(#[trigger] a[i]) == ascii_lower(b[i])
}

/// The character classes at which a token's text is divided.
#[derive(Clone, Copy, Debug, PartialEq, Eq, Structural)]
pub enum Separators {
    /// `v` or `V`, before a release version.
    Version,
    /// `-`, `~`, `&` or `+`, between the two ends of a range.
    Range,
    /// `.` alone.
    Dot,
    /// `.` or `-`, between the parts of a date.
    Date,
    /// `.`, `-`, `&`, `+` or `~`, between the pieces of a season token.
    Piece,
}

impl Separators {
    /// Whether `c` belongs to the class.
    pub open spec fn holds(self, c: char) -> bool {
        match self {
            Separators::Version => c == 'v' || c == 'V',
            Separators::Range => c == '-' || c == '~' || c == '&' || c == '+',
            Separators::Dot => c == '.',
            Separators::Date => c == '.' || c == '-',
            Separators::Piece => c == '.' || c == '-' || c == '&' || c == '+' || c == '~',
        }
    }

    pub fn contains(&self, c: char) -> (r: bool)
        ensures
            r == self.holds(c),
    {
        match self {
            Separators::Version => c == 'v' || c == 'V',
            Separators::Range => c == '-' || c == '~' || c == '&' || c == '+',
            Separators::Dot => c == '.',
            Separators::Date => c == '.' || c == '-',
            Separators::Piece => c == '.' || c == '-' || c == '&' || c == '+' || c == '~',
        }
    }
}

/// The test "the character at this index belongs to the class".
pub open spec fn separator_at(s: Seq<char>, class: Separators) -> spec_fn(int) -> bool {
    |i: int| class.holds(s[i])
}

/// The index of the first character of `s`, at or after `from`, that belongs
/// to the class.
pub open spec fn separator_from(s: Seq<char>, class: Separators, from: int) -> Option<int> {
    first_index(from, s.len() as int, separator_at(s, class))
}

/// The index of the first character of `s` that belongs to the class.
pub open spec fn split_point(s: Seq<char>, class: Separators) -> Option<int> {
    separator_from(s, class, 0)
}

/// The text before and the text after the first character of the class.
pub open spec fn split_once(s: Seq<char>, class: Separators) -> Option<(Seq<char>, Seq<char>)> {
    match split_point(s, class) {
        Some(k) => Some((s.subrange(0, k), s.subrange(k + 1, s.len() as int))),
        None => None,
    }
}

pub fn is_ascii_digit(c: char) -> (r: bool)
    ensures
        r == is_digit(c),
{
    c >= '0' && c <= '9'
}

pub fn is_ascii_hex_digit(c: char) -> (r: bool)
    ensures
        r == is_hex_digit(c),
{
    (c >= '0' && c <= '9') || (c >= 'a' && c <= 'f') || (c >= 'A' && c <= 'F')
}

/// Whether the characters `from..to` of `s` are all decimal digits.
pub(crate) fn digits_between(s: &str, from: usize, to: usize) -> (r: bool)
    requires
        from <= to <= s@.len(),
    ensures
        r == all_digits(s@.subrange(from as int, to as int)),
{
    let mut i: usize = from;
    while i < to
        invariant
            from <= i <= to <= s@.len(),
            forall|j: int| from <= j < i ==> is_digit(#[trigger] s@[j]),
        decreases to - i,
    {
        if !is_ascii_digit(s.get_char(i)) {
            assert(!is_digit(s@.subrange(from as int, to as int)[i - from]));
            return false;
        }
        i += 1;
    }
    assert forall|j: int| 0 <= j < to - from implies is_digit(
        #[trigger] s@.subrange(from as int, to as int)[j],
    ) by {
        assert(is_digit(s@[j + from]));
    }
    true
}

/// Whether `s` is made of decimal digits alone.
pub fn is_all_digits(s: &str) -> (r: bool)
    ensures
        r == all_digits(s@),
{
    let n = s.unicode_len();
    assert(s@.subrange(0, n as int) =~= s@);
    digits_between(s, 0, n)
}

/// Whether `s` is made of hexadecimal digits alone.
pub fn is_all_hex_digits(s: &str) -> (r: bool)
    ensures
        r == all_hex_digits(s@),
{
    let n = s.unicode_len();
    let mut i: usize = 0;
    while i < n
        invariant
            i <= n == s@.len(),
            forall|j: int| 0 <= j < i ==> is_hex_digit(#[trigger] s@[j]),
        decreases n - i,
    {
        if !is_ascii_hex_digit(s.get_char(i)) {
            return false;
        }
        i += 1;
    }
    true
}

/// No more characters are digits than there are characters.
pub proof fn lemma_digit_count_bound(s: Seq<char>)
    ensures
        digit_count(s) <= s.len(),
    decreases s.len(),
{
    if s.len() > 0 {
        lemma_digit_count_bound(s.drop_last());
    }
}

/// `digit_count` of a text extended by one character.
pub proof fn lemma_digit_count_push(s: Seq<char>, i: int)
    requires
        0 <= i < s.len(),
    ensures
        digit_count(s.take(i + 1)) == digit_count(s.take(i)) + if is_digit(s[i]) {
            1nat
        } else {
            0nat
        },
        digit_count(s.take(i + 1)) <= i + 1,
{
    assert(s.take(i + 1).drop_last() =~= s.take(i));
    assert(s.take(i + 1).last() == s[i]);
    lemma_digit_count_bound(s.take(i + 1));
}

/// How many characters of `s` are decimal digits.
pub fn count_digits(s: &str) -> (r: usize)
    ensures
        r == digit_count(s@),
        r <= s@.len(),
{
    let n = s.unicode_len();
    let mut count: usize = 0;
    let mut i: usize = 0;
    assert(s@.take(0).len() == 0);
    while i < n
        invariant
            i <= n == s@.len(),
            count == digit_count(s@.take(i as int)),
            count <= i,
        decreases n - i,
    {
        proof {
            lemma_digit_count_push(s@, i as int);
        }
        if is_ascii_digit(s.get_char(i)) {
            count += 1;
        }
        i += 1;
    }
    assert(s@.take(n as int) =~= s@);
    count
}

/// The index of the first character of `s`, at or after `from`, that belongs
/// to the class.
pub fn find_separator_from(s: &str, class: Separators, from: usize) -> (r: Option<usize>)
    ensures
        index_view(r) == separator_from(s@, class, from as int),
        r matches Some(k) ==> from <= k < s@.len() && class.holds(s@[k as int]),
{
    let n = s.unicode_len();
    let mut i: usize = from;
    while i < n
        invariant
            from <= i,
            n == s@.len(),
            forall|j: int| from <= j < i ==> !#[trigger] separator_at(s@, class)(j),
        decreases n - i,
    {
        if class.contains(s.get_char(i)) {
            proof {
                lemma_first_index_found(from as int, n as int, separator_at(s@, class), i as int);
            }
            return Some(i);
        }
        i += 1;
    }
    proof {
        lemma_first_index_absent(from as int, n as int, separator_at(s@, class));
    }
    None
}

/// The index of the first character of `s` that belongs to the class.
pub fn find_separator(s: &str, class: Separators) -> (r: Option<usize>)
    ensures
        index_view(r) == split_point(s@, class),
        r matches Some(k) ==> k < s@.len() && class.holds(s@[k as int]),
{
    find_separator_from(s, class, 0)
}

/// Whether two texts are the same.
pub fn equals(a: &str, b: &str) -> (r: bool)
    ensures
        r == (a@ == b@),
{
    let n = a.unicode_len();
    if n != b.unicode_len() {
        return false;
    }
    let mut i: usize = 0;
    while i < n
        invariant
            i <= n,
            n == a@.len(),
            n == b@.len(),
            forall|j: int| 0 <= j < i ==> a@[j] == b@[j],
        decreases n - i,
    {
        if a.get_char(i) != b.get_char(i) {
            return false;
        }
        i += 1;
    }
    assert(a@ =~= b@);
    true
}

pub fn to_ascii_lower(c: char) -> (r: u32)
    ensures
        r == ascii_lower(c),
{
    if c >= 'A' && c <= 'Z' {
        c as u32 + 32
    } else {
        c as u32
    }
}

/// Whether two texts are the same but for the case of ASCII letters.
pub fn equals_ignore_ascii_case(a: &str, b: &str) -> (r: bool)
    ensures
        r == eq_ignore_ascii_case(a@, b@),
{
    let n = a.unicode_len();
    if n != b.unicode_len() {
        return false;
    }
    let mut i: usize = 0;
    while i < n
        invariant
            i <= n,
            n == a@.len(),
            n == b@.len(),
            forall|j: int| 0 <= j < i ==> ascii_lower(#[trigger] a@[j]) == ascii_lower(b@[j]),
        decreases n - i,
    {
        if to_ascii_lower(a.get_char(i)) != to_ascii_lower(b.get_char(i)) {
            return false;
        }
        i += 1;
    }
    true
}

/// The first character of `s`, if it has one.
pub fn first_char(s: &str) -> (r: Option<char>)
    ensures
        r == (if s@.len() > 0 {
            Some(s@[0])
        } else {
            None
        }),
{
    if s.unicode_len() > 0 {
        Some(s.get_char(0))
    } else {
        None
    }
}

/// Whether `s` begins with the character `c`.
pub fn starts_with_char(s: &str, c: char) -> (r: bool)
    ensures
        r == (s@.len() > 0 && s@[0] == c),
{
    s.unicode_len() > 0 && s.get_char(0) == c
}

/// The value of a run of digits grows with every digit appended.
pub proof fn lemma_decimal_value_prefix(s: Seq<char>, i: int)
    requires
        0 <= i <= s.len(),
        all_digits(s),
    ensures
        decimal_value(s.take(i)) <= decimal_value(s),
    decreases s.len() - i,
{
    if i < s.len() {
        assert(s.take(i + 1).drop_last() =~= s.take(i));
        assert(is_digit(s[i]));
        assert(s.take(i + 1).last() == s[i]);
        lemma_decimal_value_prefix(s, i + 1);
    } else {
        assert(s.take(i) =~= s);
    }
}

/// The number that the characters `from..` of `s` write, where they are at
/// least one digit and nothing else, and the number is at most `max`.
fn parse_digits_from(s: &str, from: usize, max: u16) -> (r: Option<u16>)
    requires
        from <= s@.len(),
    ensures
        ({
            let d = s@.subrange(from as int, s@.len() as int);
            number_view(r) == (if d.len() > 0 && all_digits(d) && decimal_value(d) <= max {
                Some(decimal_value(d))
            } else {
                None
            })
        }),
{
    let n = s.unicode_len();
    if from == n {
        return None;
    }
    let ghost d = s@.subrange(from as int, n as int);
    if !digits_between(s, from, n) {
        return None;
    }
    let mut acc: u32 = 0;
    let mut i: usize = from;
    assert(d.take(0).len() == 0);
    while i < n
        invariant
            from <= i <= n == s@.len(),
            d == s@.subrange(from as int, n as int),
            all_digits(d),
            acc == decimal_value(d.take(i - from)),
            acc <= max,
        decreases n - i,
    {
        let c = s.get_char(i);
        proof {
            assert(d[i - from] == c);
            assert(is_digit(d[i - from]));
            assert(d.take(i - from + 1).drop_last() =~= d.take(i - from));
            assert(d.take(i - from + 1).last() == c);
            lemma_decimal_value_prefix(d, i - from + 1);
        }
        let next: u32 = acc * 10 + (c as u32 - '0' as u32);
        if next > max as u32 {
            return None;
        }
        acc = next;
        i += 1;
    }
    assert(d.take(n - from) =~= d);
    Some(acc as u16)
}

/// Reads `s` as an unsigned decimal number of at most `max`: an optional
/// `+`, then digits.
pub fn parse_number(s: &str, max: u16) -> (r: Option<u16>)
    ensures
        number_view(r) == parse_unsigned(s@, max as nat),
{
    if starts_with_char(s, '+') {
        parse_digits_from(s, 1, max)
    } else {
        assert(s@.subrange(0, s@.len() as int) =~= s@);
        parse_digits_from(s, 0, max)
    }
}

} // verus!
