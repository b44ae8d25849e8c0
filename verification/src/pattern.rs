//! The regular expressions of the extractors, and the calls that run them.
//!
//! Matching is done by the `regex` crate. What it returns for a pattern and
//! a text is not described here; it only has a name, and the extractors
//! say what they do with it.

use vstd::prelude::*;

verus! {

/// A resolution such as `1080p`, `720i` or `1920x1080`.
pub const VIDEO_RESOLUTION: &'static str = "^\\d{3,4}(?:[ipP]|[xX×]\\d{3,4}[ipP]?)$";

/// `E`, `EP` or `Eps`, then an episode number with an optional `.5`, then an
/// optional version. The groups are the number and the version.
pub const EPISODE_PREFIX: &'static str =
    "^(?i:(?:E|EP|Eps)(\\d{1,4}(?:\\.5)?)(?:[vV](\\d))?$)";

/// A season and an episode in one token, such as `S01E02`, `2x05` or
/// `S01-02E03-04v2`. The groups are the first and the second season, the
/// first and the second episode, and the version.
pub const SEASON_AND_EPISODE: &'static str =
    "^(?i:S?(\\d{1,2})(?:-S?(\\d{1,2}))?(?:x|[ ._-x]?EP?)(\\d{1,4})(?:-(?:EP?)?(\\d{1,4}))?(?:[vV](\\d))?$)";

/// A number sign, then one or two episode numbers, then an optional
/// version. The groups are the two numbers and the version.
pub const NUMBER_SIGN_EPISODE: &'static str =
    "[#＃](\\d{1,4})(?:[-~&+](\\d{1,4}))?(?:[vV](\\d))?";

/// Whether the regular expression `pattern` matches somewhere in
/// `haystack`, as `regex::Regex::is_match` finds. It is false where
/// `pattern` is not a regular expression that `regex::Regex::new` accepts.
pub uninterp spec fn regex_is_match(pattern: Seq<char>, haystack: Seq<char>) -> bool;

/// The capture groups of the first match of the regular expression
/// `pattern` in `haystack`, as `regex::Regex::captures` finds them: group 0
/// is the whole match, and a group that took no part in the match is
/// `None`. There are no groups where nothing matches, or where `pattern` is
/// not a regular expression that `regex::Regex::new` accepts.
pub uninterp spec fn regex_captures(pattern: Seq<char>, haystack: Seq<char>) -> Option<
    Seq<Option<Seq<char>>>,
>;

/// The value of one capture group.
pub open spec fn group_view(g: Option<String>) -> Option<Seq<char>> {
    match g {
        Some(s) => Some(s@),
        None => None,
    }
}

/// The values of the capture groups of a match.
pub open spec fn groups_view(groups: Option<Vec<Option<String>>>) -> Option<
    Seq<Option<Seq<char>>>,
> {
    match groups {
        Some(v) => Some(v@.map_values(|g: Option<String>| group_view(g))),
        None => None,
    }
}

/// Compiles `pattern` with `regex::Regex::new` and asks
/// `regex::Regex::is_match` whether it matches in `haystack`. The result is
/// only named: it is `regex_is_match` of the two texts.
#[verifier::external_body]
pub(crate) fn is_match(pattern: &str, haystack: &str) -> (r: bool)
    ensures
        r == regex_is_match(pattern@, haystack@),
{
    match regex::Regex::new(pattern) {
        Ok(re) => re.is_match(haystack),
        Err(_) => false,
    }
}

/// Compiles `pattern` with `regex::Regex::new` and runs
/// `regex::Regex::captures` on `haystack`, copying the text of each group.
/// The result is only named: it is `regex_captures` of the two texts.
#[verifier::external_body]
pub(crate) fn captures(pattern: &str, haystack: &str) -> (r: Option<Vec<Option<String>>>)
    ensures
        groups_view(r) == regex_captures(pattern@, haystack@),
{
    match regex::Regex::new(pattern) {
        Ok(re) => re.captures(haystack).map(
            |c| c.iter().map(|m| m.map(|g| g.as_str().to_owned())).collect(),
        ),
        Err(_) => None,
    }
}

/// The capture group `i` of a match, where it took part in the match.
pub open spec fn group(groups: Seq<Option<Seq<char>>>, i: int) -> Option<Seq<char>> {
    if 0 <= i < groups.len() {
        groups[i]
    } else {
        None
    }
}

} // verus!
