//! The keyword sweep: every free token that the catalog knows becomes an
//! element.

use vstd::prelude::*;
use vstd::string::*;
use crate::element::{element_views, Element, ElementKind};
use crate::keyword::KeywordKind;
use crate::parser::discipline::{lemma_sourced_then, sourced};
use crate::parser::outcome::{Outcome, each_index, element_with, extend, new_element_with, push_element};
use crate::token::{claim, claim_at, positions_are_indices, views, Token, TokenView};
use crate::Options;

verus! {

/// The kind of element that a kind of keyword becomes. The kinds that
/// other extractors read (`Episode`, `FileExtension`, `Part`, `Season`,
/// `Volume`) become none here.
pub open spec fn element_kind_of(keyword: KeywordKind) -> Option<ElementKind> {
    match keyword {
        KeywordKind::AudioChannels => Some(ElementKind::AudioTerm),
        KeywordKind::AudioCodec => Some(ElementKind::AudioTerm),
        KeywordKind::AudioLanguage => Some(ElementKind::AudioTerm),
        KeywordKind::DeviceCompatibility => Some(ElementKind::DeviceCompatibility),
        KeywordKind::EpisodeType => Some(ElementKind::Type),
        KeywordKind::Language => Some(ElementKind::Language),
        KeywordKind::Other => Some(ElementKind::Other),
        KeywordKind::ReleaseGroup => Some(ElementKind::ReleaseGroup),
        KeywordKind::ReleaseInformation => Some(ElementKind::ReleaseInformation),
        KeywordKind::ReleaseVersion => Some(ElementKind::ReleaseVersion),
        KeywordKind::Source => Some(ElementKind::Source),
        KeywordKind::Subtitles => Some(ElementKind::Subtitles),
        KeywordKind::Type => Some(ElementKind::Type),
        KeywordKind::VideoCodec => Some(ElementKind::VideoTerm),
        KeywordKind::VideoColorDepth => Some(ElementKind::VideoTerm),
        KeywordKind::VideoFormat => Some(ElementKind::VideoTerm),
        KeywordKind::VideoFrameRate => Some(ElementKind::VideoTerm),
        KeywordKind::VideoProfile => Some(ElementKind::VideoTerm),
        KeywordKind::VideoQuality => Some(ElementKind::VideoTerm),
        KeywordKind::VideoResolution => Some(ElementKind::VideoResolution),
        KeywordKind::Episode => None,
        KeywordKind::FileExtension => None,
        KeywordKind::Part => None,
        KeywordKind::Season => None,
        KeywordKind::Volume => None,
    }
}

/// Whether the options let the sweep read keywords of this kind.
pub open spec fn keyword_allowed(kind: KeywordKind, options: Options) -> bool {
    &&& kind == KeywordKind::ReleaseGroup ==> options.parse_release_group
    &&& kind == KeywordKind::VideoResolution ==> options.parse_video_resolution
}

/// The text of the element: the token's text, and for a release version
/// the text after its first character.
pub open spec fn keyword_text(kind: KeywordKind, value: Seq<char>) -> Seq<char> {
    if kind == KeywordKind::ReleaseVersion && value.len() > 0 {
        value.subrange(1, value.len() as int)
    } else {
        value
    }
}

/// A free token with a keyword that becomes an element is emitted. It is
/// claimed unless the keyword is ambiguous and the token stands outside
/// brackets.
pub open spec fn keyword_step(options: Options) -> spec_fn(Seq<TokenView>, int) -> Option<
    Outcome,
> {
    |tokens: Seq<TokenView>, i: int|
        match tokens[i].keyword {
            Some(k) => if tokens[i].is_free() && keyword_allowed(k.kind, options)
                && element_kind_of(k.kind) is Some {
                Some(
                    Outcome {
                        tokens: if !k.ambiguous || tokens[i].is_enclosed {
                            claim_at(tokens, i)
                        } else {
                            tokens
                        },
                        emitted: seq![
                            element_with(
                                element_kind_of(k.kind).unwrap(),
                                keyword_text(k.kind, tokens[i].value),
                                tokens[i],
                            ),
                        ],
                    },
                )
            } else {
                None
            },
            None => None,
        }
}

/// What the keyword sweep does: every token is looked at in turn.
pub open spec fn keywords(tokens: Seq<TokenView>, options: Options) -> Outcome {
    each_index(tokens, keyword_step(options), tokens.len() as int)
}

/// The kind of element that a kind of keyword becomes.
pub fn keyword_kind_to_element_kind(keyword: KeywordKind) -> (r: Option<ElementKind>)
    ensures
        r == element_kind_of(keyword),
{
    match keyword {
        KeywordKind::AudioChannels => Some(ElementKind::AudioTerm),
        KeywordKind::AudioCodec => Some(ElementKind::AudioTerm),
        KeywordKind::AudioLanguage => Some(ElementKind::AudioTerm),
        KeywordKind::DeviceCompatibility => Some(ElementKind::DeviceCompatibility),
        KeywordKind::EpisodeType => Some(ElementKind::Type),
        KeywordKind::Language => Some(ElementKind::Language),
        KeywordKind::Other => Some(ElementKind::Other),
        KeywordKind::ReleaseGroup => Some(ElementKind::ReleaseGroup),
        KeywordKind::ReleaseInformation => Some(ElementKind::ReleaseInformation),
        KeywordKind::ReleaseVersion => Some(ElementKind::ReleaseVersion),
        KeywordKind::Source => Some(ElementKind::Source),
        KeywordKind::Subtitles => Some(ElementKind::Subtitles),
        KeywordKind::Type => Some(ElementKind::Type),
        KeywordKind::VideoCodec => Some(ElementKind::VideoTerm),
        KeywordKind::VideoColorDepth => Some(ElementKind::VideoTerm),
        KeywordKind::VideoFormat => Some(ElementKind::VideoTerm),
        KeywordKind::VideoFrameRate => Some(ElementKind::VideoTerm),
        KeywordKind::VideoProfile => Some(ElementKind::VideoTerm),
        KeywordKind::VideoQuality => Some(ElementKind::VideoTerm),
        KeywordKind::VideoResolution => Some(ElementKind::VideoResolution),
        _ => None,
    }
}

/// Turns every free token that carries a keyword into an element of the
/// kind the keyword stands for, and claims it unless the keyword is
/// ambiguous and the token stands outside brackets.
pub fn parse_keywords(tokens: &mut [Token], options: &Options, results: &mut Vec<Element>)
    ensures
        final(tokens)@.len() == old(tokens)@.len(),
        views(final(tokens)@) == keywords(views(old(tokens)@), *options).tokens,
        element_views(final(results)@) == element_views(old(results)@) + keywords(
            views(old(tokens)@),
            *options,
        ).emitted,
        sourced(
            views(old(tokens)@),
            keywords(views(old(tokens)@), *options).tokens,
            keywords(views(old(tokens)@), *options).emitted,
        ),
{
    let n = tokens.len();
    let ghost before = views(tokens@);
    let ghost step = keyword_step(*options);
    let ghost mut o = Outcome { tokens: before, emitted: Seq::empty() };
    proof {
        assert(element_views(results@) =~= element_views(old(results)@) + o.emitted);
    }
    let mut i: usize = 0;
    while i < n
        invariant
            i <= n == tokens@.len(),
            n == before.len(),
            step == keyword_step(*options),
            o == each_index(before, step, i as int),
            views(tokens@) == o.tokens,
            element_views(results@) == element_views(old(results)@) + o.emitted,
            sourced(before, o.tokens, o.emitted),
        decreases n - i,
    {
        let ghost current = o;
        if tokens[i].is_free() {
            if let Some(keyword) = tokens[i].keyword() {
                let allowed = !(keyword.kind == KeywordKind::ReleaseGroup
                    && !options.parse_release_group()) && !(keyword.kind
                    == KeywordKind::VideoResolution && !options.parse_video_resolution());
                if allowed {
                    if let Some(element_kind) = keyword_kind_to_element_kind(keyword.kind) {
                        let token = &tokens[i];
                        let value = token.value();
                        let length = value.unicode_len();
                        let text = if keyword.kind == KeywordKind::ReleaseVersion && length > 0 {
                            value.substring_char(1, length)
                        } else {
                            value
                        };
                        push_element(results, new_element_with(element_kind, text, token));
                        if !keyword.is_ambiguous() || tokens[i].is_enclosed() {
                            claim(tokens, i);
                        }
                        proof {
                            let s = step(current.tokens, i as int).unwrap();
                            o = extend(current, Some(s));
                            assert(element_views(results@) =~= element_views(old(results)@)
                                + o.emitted);
                            assert(sourced(current.tokens, o.tokens, s.emitted)) by {
                                if positions_are_indices(current.tokens) {
                                    assert(current.tokens[i as int].position == i);
                                }
                            }
                            lemma_sourced_then(
                                before,
                                current.tokens,
                                o.tokens,
                                current.emitted,
                                s.emitted,
                            );
                        }
                    }
                }
            }
        }
        i += 1;
    }
}

} // verus!
