//! The checksum of the file: eight hexadecimal digits.

use vstd::prelude::*;
use vstd::string::*;
use crate::element::{element_option_view, Element, ElementKind};
use crate::parser::discipline::{disciplined};
use crate::parser::outcome::{Outcome, applied_one, new_element, whole_token};
use crate::search::{last_index, lemma_last_index_absent, lemma_last_index_found};
use crate::text::{all_hex_digits, is_all_hex_digits};
use crate::token::{claim, views, Token, TokenView};

verus! {

/// The token at `i` is free and exactly eight hexadecimal digits.
pub open spec fn checksum_site(tokens: Seq<TokenView>) -> spec_fn(int) -> bool {
    |i: int| tokens[i].is_free() && tokens[i].value.len() == 8 && all_hex_digits(tokens[i].value)
}

/// The last token that can be a checksum is claimed and emitted.
pub open spec fn file_checksum(tokens: Seq<TokenView>) -> Option<Outcome> {
    match last_index(0, tokens.len() as int, checksum_site(tokens)) {
        Some(i) => Some(whole_token(tokens, ElementKind::FileChecksum)(i)),
        None => None,
    }
}

/// Looks for the checksum: the rightmost free token that is exactly eight
/// hexadecimal digits.
pub fn parse_file_checksum(tokens: &mut [Token]) -> (r: Option<Element>)
    ensures
        final(tokens)@.len() == old(tokens)@.len(),
        applied_one(
            file_checksum(views(old(tokens)@)),
            element_option_view(r),
            views(old(tokens)@),
            views(final(tokens)@),
        ),
        file_checksum(views(old(tokens)@)) matches Some(o) ==> disciplined(
            views(old(tokens)@),
            o.tokens,
            o.emitted,
        ),
{
    let n = tokens.len();
    let ghost before = views(tokens@);
    let ghost site = checksum_site(before);
    let mut i: usize = n;
    while i > 0
        invariant
            i <= n == tokens@.len(),
            before == views(old(tokens)@),
            views(tokens@) == before,
            site == checksum_site(before),
            forall|j: int| i <= j < n ==> !#[trigger] site(j),
        decreases i,
    {
        i -= 1;
        let token = &tokens[i];
        if token.is_free() && token.value().unicode_len() == 8 && is_all_hex_digits(
            token.value(),
        ) {
            proof {
                lemma_last_index_found(0, n as int, site, i as int);
            }
            let element = new_element(ElementKind::FileChecksum, token);
            claim(tokens, i);
            return Some(element);
        }
    }
    proof {
        lemma_last_index_absent(0, n as int, site);
    }
    None
}

} // verus!
