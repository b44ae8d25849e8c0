//! The extension of the file: the last token, after a dot.

use vstd::prelude::*;
use crate::element::{element_option_view, Element, ElementKind};
use crate::keyword::KeywordKind;
use crate::parser::discipline::{disciplined};
use crate::parser::outcome::{Outcome, applied_one, element_of, new_element};
use crate::text::equals;
use crate::token::{claim, claim_at, views, Token, TokenView};

verus! {

/// The last token is unclaimed and carries the `FileExtension` keyword,
/// and the token before it is the delimiter `.`.
pub open spec fn ends_with_extension(tokens: Seq<TokenView>) -> bool {
    &&& tokens.len() >= 2
    &&& tokens[tokens.len() - 1].has_keyword(KeywordKind::FileExtension)
    &&& !tokens[tokens.len() - 1].is_identified
    &&& tokens[tokens.len() - 2].is_delimiter()
    &&& tokens[tokens.len() - 2].value == "."@
}

/// The dot and the extension are claimed; the extension is emitted.
pub open spec fn file_extension(tokens: Seq<TokenView>) -> Option<Outcome> {
    if ends_with_extension(tokens) {
        Some(
            Outcome {
                tokens: claim_at(claim_at(tokens, tokens.len() - 2), tokens.len() - 1),
                emitted: seq![element_of(ElementKind::FileExtension, tokens[tokens.len() - 1])],
            },
        )
    } else {
        None
    }
}

/// Looks for the file extension in the last two tokens.
pub fn parse_file_extension(tokens: &mut [Token]) -> (r: Option<Element>)
    ensures
        final(tokens)@.len() == old(tokens)@.len(),
        applied_one(
            file_extension(views(old(tokens)@)),
            element_option_view(r),
            views(old(tokens)@),
            views(final(tokens)@),
        ),
        file_extension(views(old(tokens)@)) matches Some(o) ==> disciplined(
            views(old(tokens)@),
            o.tokens,
            o.emitted,
        ),
{
    let n = tokens.len();
    if n < 2 {
        return None;
    }
    let last = &tokens[n - 1];
    let previous = &tokens[n - 2];
    let is_file_extension = last.has_keyword(KeywordKind::FileExtension) && !last.is_identified();
    let is_dot = previous.is_delimiter() && equals(previous.value(), ".");
    if is_file_extension && is_dot {
        let element = new_element(ElementKind::FileExtension, last);
        claim(tokens, n - 2);
        claim(tokens, n - 1);
        Some(element)
    } else {
        None
    }
}

} // verus!
