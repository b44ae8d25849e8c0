//! Keyword catalog entries carried by tokens.

use vstd::prelude::*;

verus! {

/// What a catalog keyword stands for.
#[derive(Clone, Copy, Debug, PartialEq, Eq, Structural)]
pub enum KeywordKind {
    AudioChannels,
    AudioCodec,
    AudioLanguage,
    DeviceCompatibility,
    EpisodeType,
    Episode,
    FileExtension,
    Language,
    Other,
    Part,
    ReleaseGroup,
    ReleaseInformation,
    ReleaseVersion,
    Season,
    Source,
    Subtitles,
    Type,
    VideoCodec,
    VideoColorDepth,
    VideoFormat,
    VideoFrameRate,
    VideoProfile,
    VideoQuality,
    VideoResolution,
    Volume,
}

/// A catalog entry: the kind of the keyword, and whether the same word is
/// also likely to occur as ordinary text.
#[derive(Clone, Copy, Debug, PartialEq, Eq, Structural)]
pub struct Keyword {
    pub kind: KeywordKind,
    pub ambiguous: bool,
}

impl Keyword {
    pub fn new(kind: KeywordKind) -> (r: Keyword)
        ensures
            r == (Keyword { kind, ambiguous: false }),
    {
        Keyword { kind, ambiguous: false }
    }

    pub fn ambiguous(kind: KeywordKind) -> (r: Keyword)
        ensures
            r == (Keyword { kind, ambiguous: true }),
    {
        Keyword { kind, ambiguous: true }
    }

    pub fn is_ambiguous(&self) -> (r: bool)
        ensures
            r == self.ambiguous,
    {
        self.ambiguous
    }
}

/// Whether an optional catalog entry is present and of the given kind.
pub open spec fn has_kind(keyword: Option<Keyword>, kind: KeywordKind) -> bool {
    keyword matches Some(k) && k.kind == kind
}

} // verus!
