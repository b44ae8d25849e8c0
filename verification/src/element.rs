//! The labelled pieces that parsing a file name yields.

use vstd::prelude::*;

verus! {

/// The label of an element.
#[derive(Clone, Copy, Debug, PartialEq, Eq, Structural)]
pub enum ElementKind {
    Title,
    EpisodeTitle,
    Episode,
    EpisodeAlt,
    Season,
    Part,
    Volume,
    Year,
    Date,
    ReleaseGroup,
    ReleaseVersion,
    FileChecksum,
    FileExtension,
    VideoResolution,
    VideoTerm,
    AudioTerm,
    Source,
    Language,
    Subtitles,
    Type,
    DeviceCompatibility,
    ReleaseInformation,
    Other,
}

/// One labelled piece of a file name: its label, its text, and the position
/// of the token it was read from.
#[derive(Clone, Debug, PartialEq, Eq)]
pub struct Element {
    pub kind: ElementKind,
    pub value: String,
    pub position: usize,
}

/// The mathematical value of an [`Element`].
pub ghost struct ElementView {
    pub kind: ElementKind,
    pub value: Seq<char>,
    pub position: usize,
}

impl View for Element {
    type V = ElementView;

    open spec fn view(&self) -> ElementView {
        ElementView { kind: self.kind, value: self.value@, position: self.position }
    }
}

/// The values of a list of elements, in order.
pub open spec fn element_views(s: Seq<Element>) -> Seq<ElementView> {
    s.map_values(|e: Element| e@)
}

/// The value of an optional element.
pub open spec fn element_option_view(e: Option<Element>) -> Option<ElementView> {
    match e {
        Some(e) => Some(e@),
        None => None,
    }
}

/// Whether some element of the list has the given kind.
pub open spec fn has_element_kind(s: Seq<ElementView>, kind: ElementKind) -> bool {
    exists|i: int| 0 <= i < s.len() && (#[trigger] s[i]).kind == kind
}

/// Whether a list of elements holds one of the given kind.
pub fn contains_kind(results: &Vec<Element>, kind: ElementKind) -> (r: bool)
    ensures
        r == has_element_kind(element_views(results@), kind),
{
    let mut i: usize = 0;
    while i < results.len()
        invariant
            i <= results.len(),
            forall|j: int| 0 <= j < i ==> (#[trigger] element_views(results@)[j]).kind != kind,
        decreases results.len() - i,
    {
        if results[i].kind == kind {
            assert(element_views(results@)[i as int].kind == kind);
            return true;
        }
        i += 1;
    }
    false
}

} // verus!
