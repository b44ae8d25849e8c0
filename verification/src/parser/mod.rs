//! The extractors, and the order in which they run.

use vstd::prelude::*;
use crate::element::{
    contains_kind, element_views, has_element_kind, Element, ElementKind, ElementView,
};
use crate::keyword::KeywordKind;
use crate::order::{
    lemma_sort_by_position, sort_by_position, sort_elements, sorted_by_position,
};
use crate::parser::discipline::{
    accounted, bare_resolution, lemma_claims_only_then, lemma_sourced_then, sourced,
    unclaimed_keyword, unclaimed_source,
};
use crate::parser::outcome::{element_of, extend, push_element, Outcome};
use crate::token::{claim_range, claims_only, positions_are_indices, views, Token, TokenView};
use crate::utils::{next_token, unclaimed_but_parts, TokenTest};
use crate::Options;

pub mod common;
pub mod discipline;
pub mod episode;
pub mod episode_title;
pub mod file_checksum;
pub mod file_extension;
pub mod keywords;
pub mod outcome;
pub mod part;
pub mod release_group;
pub mod season;
pub mod title;
pub mod video_resolution;
pub mod volume;
pub mod year;

verus! {

/// The outcome of an extractor that is switched on.
pub open spec fn when(on: bool, outcome: Option<Outcome>) -> Option<Outcome> {
    if on {
        outcome
    } else {
        None
    }
}

/// The tokens as they come, and no results.
pub open spec fn start(tokens: Seq<TokenView>) -> Outcome {
    Outcome { tokens, emitted: Seq::empty() }
}

/// The pass that reads the file extension.
pub open spec fn with_extension(s: Outcome, options: Options) -> Outcome {
    extend(s, when(options.parse_file_extension, file_extension::file_extension(s.tokens)))
}

/// The first passes, which read what has a fixed shape: file extension,
/// keywords, checksum, resolution, date and year, in this order.
pub open spec fn structural(tokens: Seq<TokenView>, options: Options) -> Outcome {
    shaped(with_extension(start(tokens), options), options)
}

/// The passes after the file extension that read what has a fixed shape.
pub open spec fn shaped(s1: Outcome, options: Options) -> Outcome {
    let s2 = extend(s1, Some(keywords::keywords(s1.tokens, options)));
    let s3 = extend(s2, when(options.parse_file_checksum, file_checksum::file_checksum(s2.tokens)));
    let s4 = extend(
        s3,
        when(
            options.parse_video_resolution,
            Some(
                video_resolution::video_resolution(
                    s3.tokens,
                    has_element_kind(s3.emitted, ElementKind::VideoResolution),
                ),
            ),
        ),
    );
    let s5 = extend(s4, when(options.parse_date, year::date(s4.tokens)));
    extend(s5, when(options.parse_year, year::year(s5.tokens)))
}

/// The passes that read numbers: season, part, and, where episodes are
/// asked for, volume and episode.
pub open spec fn numbered(s: Outcome, options: Options) -> Outcome {
    let s1 = extend(s, when(options.parse_season, Some(season::season(s.tokens))));
    let s2 = extend(s1, Some(part::part(s1.tokens)));
    let s3 = extend(s2, when(options.parse_episode, Some(volume::volume(s2.tokens))));
    extend(s3, when(options.parse_episode, episode::episode(s3.tokens, ElementKind::Episode)))
}

/// Everything that runs before the title is looked for.
pub open spec fn before_title(tokens: Seq<TokenView>, options: Options) -> Outcome {
    numbered(structural(tokens, options), options)
}

/// The pass that reads the title.
pub open spec fn with_title(s: Outcome, options: Options) -> Outcome {
    extend(s, when(options.parse_title, title::title(s.tokens)))
}

/// The pass that reads the release group, unless a keyword gave one.
pub open spec fn with_release_group(s: Outcome, options: Options) -> Outcome {
    extend(
        s,
        when(
            options.parse_release_group && !has_element_kind(s.emitted, ElementKind::ReleaseGroup),
            release_group::release_group(s.tokens),
        ),
    )
}

/// Everything that runs before the episode title is looked for.
pub open spec fn before_episode_title(tokens: Seq<TokenView>, options: Options) -> Outcome {
    with_release_group(with_title(before_title(tokens, options), options), options)
}

/// Whether the episode title is looked for: an episode was found, and the
/// options ask for the title.
pub open spec fn wants_episode_title(s: Outcome, options: Options) -> bool {
    has_element_kind(s.emitted, ElementKind::Episode) && options.parse_episode_title
}

/// The pass that reads the episode title, where an episode was found.
pub open spec fn with_episode_title(s: Outcome, options: Options) -> Outcome {
    extend(s, when(wants_episode_title(s, options), episode_title::episode_title(s.tokens)))
}

/// The second search for an episode, which yields the alternative
/// episode. It runs where an episode was found before the episode title
/// was looked for.
pub open spec fn with_alternative(s: Outcome, had_episode: bool, options: Options) -> Outcome {
    extend(
        s,
        when(
            had_episode && options.parse_episode,
            episode::episode(s.tokens, ElementKind::EpisodeAlt),
        ),
    )
}

/// What all the extractors do, one after the other: the tokens as they
/// leave them, and the elements in the order in which they were found.
pub open spec fn extracted(tokens: Seq<TokenView>, options: Options) -> Outcome {
    let s = before_episode_title(tokens, options);
    with_alternative(
        with_episode_title(s, options),
        has_element_kind(s.emitted, ElementKind::Episode),
        options,
    )
}

/// The result of parsing: the elements found, in the order of their
/// positions.
pub open spec fn parsed(tokens: Seq<TokenView>, options: Options) -> Seq<ElementView> {
    sort_by_position(extracted(tokens, options).emitted)
}

/// The tokens and the results at some point of the pipeline.
pub open spec fn state(tokens: Seq<Token>, results: Seq<Element>) -> Outcome {
    Outcome { tokens: views(tokens), emitted: element_views(results) }
}

/// The state `later` comes after the state `earlier`: its results begin
/// with the earlier results, and what was added to them was added under
/// the claim discipline.
pub open spec fn follows(earlier: Outcome, later: Outcome) -> bool {
    &&& earlier.emitted.len() <= later.emitted.len()
    &&& later.emitted.take(earlier.emitted.len() as int) == earlier.emitted
    &&& sourced(earlier.tokens, later.tokens, later.emitted.skip(earlier.emitted.len() as int))
}

/// A state comes after itself.
pub proof fn lemma_follows_self(s: Outcome)
    ensures
        follows(s, s),
{
    assert(s.emitted.take(s.emitted.len() as int) =~= s.emitted);
}

/// A step that keeps the discipline leads from a state that comes after
/// `origin` to another.
pub proof fn lemma_follows_step(origin: Outcome, s: Outcome, step: Option<Outcome>)
    requires
        follows(origin, s),
        step matches Some(o) ==> sourced(s.tokens, o.tokens, o.emitted),
    ensures
        follows(origin, extend(s, step)),
{
    match step {
        Some(o) => {
            let n = origin.emitted.len() as int;
            let next = extend(s, step);
            assert(next.emitted.take(n) =~= s.emitted.take(n));
            assert(next.emitted.skip(n) =~= s.emitted.skip(n) + o.emitted);
            lemma_sourced_then(origin.tokens, s.tokens, o.tokens, s.emitted.skip(n), o.emitted);
        },
        None => {},
    }
}

/// Coming after is transitive.
pub proof fn lemma_follows_then(a: Outcome, b: Outcome, c: Outcome)
    requires
        follows(a, b),
        follows(b, c),
    ensures
        follows(a, c),
{
    let n = a.emitted.len() as int;
    let m = b.emitted.len() as int;
    assert(c.emitted.take(n) =~= c.emitted.take(m).take(n));
    assert(c.emitted.skip(n) =~= b.emitted.skip(n) + c.emitted.skip(m)) by {
        assert(c.emitted.take(m) == b.emitted);
        assert forall|k: int| 0 <= k < c.emitted.len() - n implies c.emitted.skip(n)[k] == (
        b.emitted.skip(n) + c.emitted.skip(m))[k] by {
            if k < m - n {
                assert(c.emitted.take(m)[k + n] == c.emitted[k + n]);
            }
        }
    }
    lemma_sourced_then(a.tokens, b.tokens, c.tokens, b.emitted.skip(n), c.emitted.skip(m));
}

/// An element that may lie within the tokens of a title: one that left its
/// token unclaimed, or one read from a token that carries the `Part`
/// keyword, over which a title runs on.
pub open spec fn excused(tokens: Seq<TokenView>, e: ElementView) -> bool {
    unclaimed_keyword(tokens, e) || bare_resolution(tokens, e) || (e.position < tokens.len()
        && tokens[e.position as int].has_keyword(KeywordKind::Part))
}

/// No element but the one at index `own` has its position in `a..b`,
/// unless it is excused.
pub open spec fn apart(
    tokens: Seq<TokenView>,
    results: Seq<ElementView>,
    own: int,
    a: int,
    b: int,
) -> bool {
    forall|k: int|
        0 <= k < results.len() && k != own ==> !(a <= (#[trigger] results[k]).position < b)
            || excused(tokens, results[k])
}

/// The title keeps apart from the other elements: where it was found
/// among free text outside brackets, no other element has its position
/// among the title's tokens, unless it is excused. `end` is the state in
/// which the extractors leave tokens and results.
pub open spec fn title_apart(origin: Seq<TokenView>, options: Options, end: Outcome) -> bool {
    let s = before_title(origin, options);
    (options.parse_title && title::title(s.tokens) is Some && next_token(
        s.tokens,
        0,
        TokenTest::FreeNotEnclosed,
    ) is Some) ==> apart(
        end.tokens,
        end.emitted,
        s.emitted.len() as int,
        title::title_range(s.tokens).unwrap().0,
        title::title_range(s.tokens).unwrap().1,
    )
}

/// The episode title keeps apart from the other elements: no other element
/// has its position among the episode title's tokens, unless it is
/// excused. `end` is the state in which the extractors leave tokens and
/// results.
pub open spec fn episode_title_apart(origin: Seq<TokenView>, options: Options, end: Outcome) -> bool {
    let s = before_episode_title(origin, options);
    (wants_episode_title(s, options) && episode_title::episode_title(s.tokens) is Some) ==> apart(
        end.tokens,
        end.emitted,
        s.emitted.len() as int,
        episode_title::episode_title_range(s.tokens).unwrap().0,
        episode_title::episode_title_range(s.tokens).unwrap().1,
    )
}

/// Claiming a run of tokens that are unclaimed, or carry the `Part`
/// keyword, for one element keeps that element apart from all others:
/// those found before have claimed their tokens, and those found after
/// are read from unclaimed tokens. `s` is the state before the run is
/// claimed, `t` the state after, and `f` the state at the end.
proof fn lemma_apart(origin: Outcome, s: Outcome, t: Outcome, f: Outcome, a: int, b: int)
    requires
        positions_are_indices(origin.tokens),
        origin.emitted.len() == 0,
        follows(origin, s),
        follows(t, f),
        0 <= a <= b <= s.tokens.len(),
        unclaimed_but_parts(s.tokens, a, b),
        t.tokens == claim_range(s.tokens, a, b),
        t.emitted.len() == s.emitted.len() + 1,
        t.emitted.take(s.emitted.len() as int) == s.emitted,
    ensures
        apart(f.tokens, f.emitted, s.emitted.len() as int, a, b),
{
    let n = s.emitted.len() as int;
    assert(s.emitted.skip(0) =~= s.emitted);
    assert(claims_only(s.tokens, t.tokens));
    lemma_claims_only_then(origin.tokens, s.tokens, t.tokens);
    lemma_claims_only_then(s.tokens, t.tokens, f.tokens);
    assert(positions_are_indices(t.tokens)) by {
        assert forall|i: int| 0 <= i < t.tokens.len() implies (#[trigger] t.tokens[i]).position
            == i by {
            assert(s.tokens[i].position == i);
        }
    }
    assert forall|k: int| 0 <= k < f.emitted.len() && k != n implies !(a <= (
    #[trigger] f.emitted[k]).position < b) || excused(f.tokens, f.emitted[k]) by {
        let e = f.emitted[k];
        let p = e.position as int;
        if k < n {
            assert(f.emitted.take(n + 1)[k] == e);
            assert(t.emitted.take(n)[k] == t.emitted[k]);
            assert(s.emitted[k] == e);
            assert(accounted(s.tokens, e));
            assert(f.tokens[p] == s.tokens[p] || f.tokens[p] == s.tokens[p].claimed());
            if a <= p < b {
                assert(!s.tokens[p].is_identified || s.tokens[p].has_keyword(KeywordKind::Part));
            }
        } else {
            let added = f.emitted.skip(n + 1);
            assert(added[k - n - 1] == e);
            assert(unclaimed_source(t.tokens, e));
        }
    }
}

/// The file extension comes through: where the tokens end with a dot and
/// an unclaimed extension, and extensions are asked for, the first element
/// found is the extension, with the text of the last token.
pub open spec fn extension_first(
    tokens: Seq<TokenView>,
    options: Options,
    results: Seq<ElementView>,
) -> bool {
    (options.parse_file_extension && file_extension::ends_with_extension(tokens)) ==> results.len()
        > 0 && results[0] == element_of(ElementKind::FileExtension, tokens.last())
}

/// Appends the element that an extractor returned, if it returned one.
fn push_found(results: &mut Vec<Element>, found: Option<Element>)
    ensures
        element_views(final(results)@) == element_views(old(results)@) + match found {
            Some(e) => seq![e@],
            None => Seq::empty(),
        },
{
    match found {
        Some(e) => {
            push_element(results, e);
            assert(element_views(results@) =~= element_views(old(results)@) + seq![e@]);
        },
        None => {
            assert(element_views(results@) =~= element_views(old(results)@)
                + Seq::<ElementView>::empty());
        },
    }
}

fn run_extension(tokens: &mut [Token], options: &Options, results: &mut Vec<Element>)
    requires
        old(results)@.len() == 0,
    ensures
        final(tokens)@.len() == old(tokens)@.len(),
        state(final(tokens)@, final(results)@) == with_extension(
            start(views(old(tokens)@)),
            *options,
        ),
        follows(start(views(old(tokens)@)), state(final(tokens)@, final(results)@)),
        extension_first(views(old(tokens)@), *options, element_views(final(results)@)),
{
    let ghost s = start(views(tokens@));
    proof {
        assert(element_views(results@) =~= s.emitted);
        lemma_follows_self(s);
    }
    if options.parse_file_extension() {
        let found = file_extension::parse_file_extension(tokens);
        push_found(results, found);
        proof {
            let step = file_extension::file_extension(s.tokens);
            lemma_follows_step(s, s, step);
            assert(element_views(results@) =~= extend(s, step).emitted);
        }
    }
}

fn run_shaped(tokens: &mut [Token], options: &Options, results: &mut Vec<Element>)
    ensures
        final(tokens)@.len() == old(tokens)@.len(),
        state(final(tokens)@, final(results)@) == shaped(
            state(old(tokens)@, old(results)@),
            *options,
        ),
        follows(state(old(tokens)@, old(results)@), state(final(tokens)@, final(results)@)),
{
    let ghost origin = state(tokens@, results@);
    let ghost mut s = origin;
    proof {
        lemma_follows_self(origin);
    }
    keywords::parse_keywords(tokens, options, results);
    proof {
        let step = Some(keywords::keywords(s.tokens, *options));
        lemma_follows_step(origin, s, step);
        s = extend(s, step);
    }
    if options.parse_file_checksum() {
        let found = file_checksum::parse_file_checksum(tokens);
        push_found(results, found);
        proof {
            let step = file_checksum::file_checksum(s.tokens);
            lemma_follows_step(origin, s, step);
            s = extend(s, step);
            assert(element_views(results@) =~= s.emitted);
        }
    }
    if options.parse_video_resolution() {
        video_resolution::parse_video_resolution(tokens, results);
        proof {
            let step = Some(
                video_resolution::video_resolution(
                    s.tokens,
                    has_element_kind(s.emitted, ElementKind::VideoResolution),
                ),
            );
            lemma_follows_step(origin, s, step);
            s = extend(s, step);
        }
    }
    if options.parse_date() {
        let found = year::parse_date(tokens);
        push_found(results, found);
        proof {
            let step = year::date(s.tokens);
            lemma_follows_step(origin, s, step);
            s = extend(s, step);
            assert(element_views(results@) =~= s.emitted);
        }
    }
    if options.parse_year() {
        let found = year::parse_year(tokens);
        push_found(results, found);
        proof {
            let step = year::year(s.tokens);
            lemma_follows_step(origin, s, step);
            s = extend(s, step);
            assert(element_views(results@) =~= s.emitted);
        }
    }
}

fn run_numbered(tokens: &mut [Token], options: &Options, results: &mut Vec<Element>)
    ensures
        final(tokens)@.len() == old(tokens)@.len(),
        state(final(tokens)@, final(results)@) == numbered(
            state(old(tokens)@, old(results)@),
            *options,
        ),
        follows(state(old(tokens)@, old(results)@), state(final(tokens)@, final(results)@)),
{
    let ghost origin = state(tokens@, results@);
    let ghost mut s = origin;
    proof {
        lemma_follows_self(origin);
    }
    if options.parse_season() {
        season::parse_season(tokens, results);
        proof {
            let step = Some(season::season(s.tokens));
            lemma_follows_step(origin, s, step);
            s = extend(s, step);
        }
    }
    part::parse_part(tokens, results);
    proof {
        let step = Some(part::part(s.tokens));
        lemma_follows_step(origin, s, step);
        s = extend(s, step);
    }
    if options.parse_episode() {
        volume::parse_volume(tokens, results);
        proof {
            let step = Some(volume::volume(s.tokens));
            lemma_follows_step(origin, s, step);
            s = extend(s, step);
        }
        episode::parse_episode(tokens, results, ElementKind::Episode);
        proof {
            let step = episode::episode(s.tokens, ElementKind::Episode);
            lemma_follows_step(origin, s, step);
            s = extend(s, step);
        }
    }
}

fn run_title(tokens: &mut [Token], options: &Options, results: &mut Vec<Element>)
    ensures
        final(tokens)@.len() == old(tokens)@.len(),
        state(final(tokens)@, final(results)@) == with_title(
            state(old(tokens)@, old(results)@),
            *options,
        ),
        follows(state(old(tokens)@, old(results)@), state(final(tokens)@, final(results)@)),
        options.parse_title ==> (title::title_range(views(old(tokens)@)) matches Some((a, b)) ==> 0
            <= a <= b <= old(tokens)@.len() && (next_token(
            views(old(tokens)@),
            0,
            TokenTest::FreeNotEnclosed,
        ) is Some ==> unclaimed_but_parts(views(old(tokens)@), a, b))),
{
    let ghost s = state(tokens@, results@);
    proof {
        lemma_follows_self(s);
    }
    if options.parse_title() {
        let found = title::parse_title(tokens);
        push_found(results, found);
        proof {
            let step = title::title(s.tokens);
            lemma_follows_step(s, s, step);
            assert(element_views(results@) =~= extend(s, step).emitted);
        }
    }
}

fn run_release_group(tokens: &mut [Token], options: &Options, results: &mut Vec<Element>)
    ensures
        final(tokens)@.len() == old(tokens)@.len(),
        state(final(tokens)@, final(results)@) == with_release_group(
            state(old(tokens)@, old(results)@),
            *options,
        ),
        follows(state(old(tokens)@, old(results)@), state(final(tokens)@, final(results)@)),
{
    let ghost s = state(tokens@, results@);
    proof {
        lemma_follows_self(s);
    }
    if options.parse_release_group() && !contains_kind(results, ElementKind::ReleaseGroup) {
        let found = release_group::parse_release_group(tokens);
        push_found(results, found);
        proof {
            let step = release_group::release_group(s.tokens);
            lemma_follows_step(s, s, step);
            assert(element_views(results@) =~= extend(s, step).emitted);
        }
    }
}

fn run_episode_title(tokens: &mut [Token], options: &Options, results: &mut Vec<Element>)
    ensures
        final(tokens)@.len() == old(tokens)@.len(),
        state(final(tokens)@, final(results)@) == with_episode_title(
            state(old(tokens)@, old(results)@),
            *options,
        ),
        follows(state(old(tokens)@, old(results)@), state(final(tokens)@, final(results)@)),
        wants_episode_title(state(old(tokens)@, old(results)@), *options) ==> (
        episode_title::episode_title_range(views(old(tokens)@)) matches Some((a, b)) ==> 0 <= a
            <= b <= old(tokens)@.len() && unclaimed_but_parts(views(old(tokens)@), a, b)),
{
    let ghost s = state(tokens@, results@);
    proof {
        lemma_follows_self(s);
    }
    if contains_kind(results, ElementKind::Episode) && options.parse_episode_title() {
        let found = episode_title::parse_episode_title(tokens);
        push_found(results, found);
        proof {
            let step = episode_title::episode_title(s.tokens);
            lemma_follows_step(s, s, step);
            assert(element_views(results@) =~= extend(s, step).emitted);
        }
    }
}

fn run_alternative(
    tokens: &mut [Token],
    had_episode: bool,
    options: &Options,
    results: &mut Vec<Element>,
)
    ensures
        final(tokens)@.len() == old(tokens)@.len(),
        state(final(tokens)@, final(results)@) == with_alternative(
            state(old(tokens)@, old(results)@),
            had_episode,
            *options,
        ),
        follows(state(old(tokens)@, old(results)@), state(final(tokens)@, final(results)@)),
{
    let ghost s = state(tokens@, results@);
    proof {
        lemma_follows_self(s);
    }
    if had_episode && options.parse_episode() {
        episode::parse_episode(tokens, results, ElementKind::EpisodeAlt);
        proof {
            let step = episode::episode(s.tokens, ElementKind::EpisodeAlt);
            lemma_follows_step(s, s, step);
        }
    }
}

/// Runs the extractors over the tokens, each on what the earlier ones
/// left, and returns the elements in the order in which they were found.
///
/// The extractors only claim tokens. Where every token's position is its
/// index, each element was read from a token that was unclaimed when its
/// extractor ran, and that token is claimed in the end, unless the element
/// comes from an ambiguous keyword outside brackets or from a bare
/// resolution number, which are emitted without a claim. The title and the
/// episode title then keep apart from the other elements.
pub fn extract(tokens: &mut [Token], options: &Options) -> (results: Vec<Element>)
    ensures
        final(tokens)@.len() == old(tokens)@.len(),
        state(final(tokens)@, results@) == extracted(views(old(tokens)@), *options),
        sourced(views(old(tokens)@), views(final(tokens)@), element_views(results@)),
        positions_are_indices(views(old(tokens)@)) ==> title_apart(
            views(old(tokens)@),
            *options,
            state(final(tokens)@, results@),
        ) && episode_title_apart(views(old(tokens)@), *options, state(final(tokens)@, results@)),
        extension_first(views(old(tokens)@), *options, element_views(results@)),
{
    let ghost origin = start(views(tokens@));
    let mut results: Vec<Element> = Vec::new();
    run_extension(tokens, options, &mut results);
    let ghost s0 = state(tokens@, results@);
    run_shaped(tokens, options, &mut results);
    let ghost s1 = state(tokens@, results@);
    run_numbered(tokens, options, &mut results);
    let ghost s2 = state(tokens@, results@);
    run_title(tokens, options, &mut results);
    let ghost s3 = state(tokens@, results@);
    run_release_group(tokens, options, &mut results);
    let ghost s4 = state(tokens@, results@);
    let had_episode = contains_kind(&results, ElementKind::Episode);
    run_episode_title(tokens, options, &mut results);
    let ghost s5 = state(tokens@, results@);
    run_alternative(tokens, had_episode, options, &mut results);
    let ghost s6 = state(tokens@, results@);
    proof {
        lemma_follows_then(origin, s0, s1);
        lemma_follows_then(origin, s1, s2);
        lemma_follows_then(origin, s2, s3);
        lemma_follows_then(origin, s3, s4);
        lemma_follows_then(origin, s4, s5);
        lemma_follows_then(origin, s5, s6);
        assert(s6.emitted.skip(0) =~= s6.emitted);
        lemma_follows_then(s0, s1, s2);
        lemma_follows_then(s0, s2, s3);
        lemma_follows_then(s0, s3, s4);
        lemma_follows_then(s0, s4, s5);
        lemma_follows_then(s0, s5, s6);
        if s0.emitted.len() > 0 {
            assert(s6.emitted.take(s0.emitted.len() as int)[0] == s6.emitted[0]);
        }
        if positions_are_indices(origin.tokens) {
            lemma_follows_then(s3, s4, s5);
            lemma_follows_then(s3, s5, s6);
            if options.parse_title && title::title(s2.tokens) is Some && next_token(
                s2.tokens,
                0,
                TokenTest::FreeNotEnclosed,
            ) is Some {
                let range = title::title_range(s2.tokens).unwrap();
                assert(s3.emitted.take(s2.emitted.len() as int) =~= s2.emitted);
                lemma_apart(origin, s2, s3, s6, range.0, range.1);
            }
            if wants_episode_title(s4, *options) && episode_title::episode_title(s4.tokens) is Some {
                let range = episode_title::episode_title_range(s4.tokens).unwrap();
                assert(s5.emitted.take(s4.emitted.len() as int) =~= s4.emitted);
                lemma_apart(origin, s4, s5, s6, range.0, range.1);
            }
        }
    }
    results
}

/// Parses the tokens of one file name: runs the extractors and returns
/// the elements they found, in the order of their positions; elements of
/// one position keep the order in which they were found.
///
/// Where every token's position is its index, each element was read from
/// a token that is claimed in the end, unless it is of one of the two
/// kinds that leave their token unclaimed. Where the tokens end with a dot
/// and an unclaimed extension, and extensions are asked for, the extension
/// is among the elements.
pub fn parse_with_options(tokens: Vec<Token>, options: Options) -> (results: Vec<Element>)
    ensures
        element_views(results@) == parsed(views(tokens@), options),
        sorted_by_position(element_views(results@)),
        positions_are_indices(views(tokens@)) ==> forall|k: int|
            0 <= k < results@.len() ==> accounted(
                extracted(views(tokens@), options).tokens,
                #[trigger] element_views(results@)[k],
            ),
        (options.parse_file_extension && file_extension::ends_with_extension(views(tokens@)))
            ==> element_views(results@).contains(
            element_of(ElementKind::FileExtension, views(tokens@).last()),
        ),
{
    let mut tokens = tokens;
    let ghost before = views(tokens@);
    let found = extract(tokens.as_mut_slice(), &options);
    let ghost unsorted = element_views(found@);
    let ghost after = views(tokens@);
    let sorted = sort_elements(found);
    proof {
        lemma_sort_by_position(unsorted);
        if options.parse_file_extension && file_extension::ends_with_extension(before) {
            assert(element_views(sorted@).contains(unsorted[0]));
        }
        if positions_are_indices(before) {
            assert forall|k: int| 0 <= k < sorted@.len() implies accounted(
                after,
                #[trigger] element_views(sorted@)[k],
            ) by {
                let e = element_views(sorted@)[k];
                assert(unsorted.contains(e));
                let m = choose|m: int| 0 <= m < unsorted.len() && unsorted[m] == e;
                assert(accounted(after, unsorted[m]));
            }
        }
    }
    sorted
}

/// Parsing the same tokens with the same options twice gives the same
/// elements: the result is a function of the tokens and the options,
/// with no other state.
pub proof fn lemma_parse_is_deterministic(
    first_tokens: Seq<Token>,
    second_tokens: Seq<Token>,
    options: Options,
    first: Seq<Element>,
    second: Seq<Element>,
)
    requires
        views(first_tokens) == views(second_tokens),
        element_views(first) == parsed(views(first_tokens), options),
        element_views(second) == parsed(views(second_tokens), options),
    ensures
        element_views(first) == element_views(second),
{
}

} // verus!
