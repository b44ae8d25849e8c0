//! Whole file names, tokenized by hand, through the full pipeline.

use anitomy::element::{Element, ElementKind};
use anitomy::keyword::{Keyword, KeywordKind};
use anitomy::parser::{extract, parse_with_options};
use anitomy::token::{Token, TokenCategory};
use anitomy::Options;

struct Piece {
    text: &'static str,
    category: TokenCategory,
    keyword: Option<Keyword>,
}

fn word(text: &'static str) -> Piece {
    Piece { text, category: TokenCategory::Word, keyword: None }
}

fn number(text: &'static str) -> Piece {
    Piece { text, category: TokenCategory::Number, keyword: None }
}

fn delimiter(text: &'static str) -> Piece {
    Piece { text, category: TokenCategory::Delimiter, keyword: None }
}

fn open(text: &'static str) -> Piece {
    Piece { text, category: TokenCategory::OpenBracket, keyword: None }
}

fn close(text: &'static str) -> Piece {
    Piece { text, category: TokenCategory::ClosedBracket, keyword: None }
}

fn keyword(text: &'static str, kind: KeywordKind) -> Piece {
    Piece { text, category: TokenCategory::Word, keyword: Some(Keyword::new(kind)) }
}

fn ambiguous(text: &'static str, kind: KeywordKind) -> Piece {
    Piece { text, category: TokenCategory::Word, keyword: Some(Keyword::ambiguous(kind)) }
}

/// Numbers the pieces and marks those that stand between brackets.
fn tokens(pieces: Vec<Piece>) -> Vec<Token> {
    let mut depth = 0usize;
    let mut out = Vec::new();
    for (position, piece) in pieces.into_iter().enumerate() {
        if piece.category == TokenCategory::ClosedBracket && depth > 0 {
            depth -= 1;
        }
        out.push(Token::new(piece.text, position, piece.category, piece.keyword, depth > 0));
        if piece.category == TokenCategory::OpenBracket {
            depth += 1;
        }
    }
    out
}

fn values(results: &[Element], kind: ElementKind) -> Vec<String> {
    results.iter().filter(|e| e.kind == kind).map(|e| e.value.clone()).collect()
}

fn positions(results: &[Element]) -> Vec<usize> {
    results.iter().map(|e| e.position).collect()
}

fn fullmetal() -> Vec<Token> {
    // [Ouroboros]_Fullmetal_Alchemist_Brotherhood_-_01_[1280x720_H.264_AAC][233E41E0].mkv
    tokens(vec![
        open("["),
        word("Ouroboros"),
        close("]"),
        delimiter("_"),
        word("Fullmetal"),
        delimiter("_"),
        word("Alchemist"),
        delimiter("_"),
        word("Brotherhood"),
        delimiter("_"),
        delimiter("-"),
        delimiter("_"),
        number("01"),
        delimiter("_"),
        open("["),
        word("1280x720"),
        delimiter("_"),
        keyword("H.264", KeywordKind::VideoCodec),
        delimiter("_"),
        keyword("AAC", KeywordKind::AudioCodec),
        close("]"),
        open("["),
        word("233E41E0"),
        close("]"),
        delimiter("."),
        keyword("mkv", KeywordKind::FileExtension),
    ])
}

fn toradora() -> Vec<Token> {
    // [TaigaSubs]_Toradora!_(2008)_-_01v2_-_Tiger_and_Dragon_[1280x720_H.264_FLAC][1234ABCD].mkv
    tokens(vec![
        open("["),
        word("TaigaSubs"),
        close("]"),
        delimiter("_"),
        word("Toradora!"),
        delimiter("_"),
        open("("),
        number("2008"),
        close(")"),
        delimiter("_"),
        delimiter("-"),
        delimiter("_"),
        word("01v2"),
        delimiter("_"),
        delimiter("-"),
        delimiter("_"),
        word("Tiger"),
        delimiter("_"),
        word("and"),
        delimiter("_"),
        word("Dragon"),
        delimiter("_"),
        open("["),
        word("1280x720"),
        delimiter("_"),
        keyword("H.264", KeywordKind::VideoCodec),
        delimiter("_"),
        keyword("FLAC", KeywordKind::AudioCodec),
        close("]"),
        open("["),
        word("1234ABCD"),
        close("]"),
        delimiter("."),
        keyword("mkv", KeywordKind::FileExtension),
    ])
}

#[test]
fn fullmetal_alchemist_brotherhood() {
    let results = parse_with_options(fullmetal(), Options::new());
    assert_eq!(values(&results, ElementKind::ReleaseGroup), vec!["Ouroboros"]);
    assert_eq!(values(&results, ElementKind::Title), vec!["Fullmetal Alchemist Brotherhood"]);
    assert_eq!(values(&results, ElementKind::Episode), vec!["01"]);
    assert_eq!(values(&results, ElementKind::VideoResolution), vec!["1280x720"]);
    assert_eq!(values(&results, ElementKind::VideoTerm), vec!["H.264"]);
    assert_eq!(values(&results, ElementKind::AudioTerm), vec!["AAC"]);
    assert_eq!(values(&results, ElementKind::FileChecksum), vec!["233E41E0"]);
    assert_eq!(values(&results, ElementKind::FileExtension), vec!["mkv"]);
    assert_eq!(results.len(), 8);
    assert_eq!(positions(&results), vec![1, 4, 12, 15, 17, 19, 22, 25]);
}

#[test]
fn toradora_tiger_and_dragon() {
    let results = parse_with_options(toradora(), Options::new());
    assert_eq!(values(&results, ElementKind::Year), vec!["2008"]);
    assert_eq!(values(&results, ElementKind::Episode), vec!["01"]);
    assert_eq!(values(&results, ElementKind::ReleaseVersion), vec!["2"]);
    assert_eq!(values(&results, ElementKind::EpisodeTitle), vec!["Tiger and Dragon"]);
    assert_eq!(values(&results, ElementKind::Title), vec!["Toradora!"]);
    assert_eq!(values(&results, ElementKind::ReleaseGroup), vec!["TaigaSubs"]);
    assert_eq!(values(&results, ElementKind::VideoResolution), vec!["1280x720"]);
    assert_eq!(values(&results, ElementKind::AudioTerm), vec!["FLAC"]);
    assert_eq!(values(&results, ElementKind::FileChecksum), vec!["1234ABCD"]);
    assert_eq!(values(&results, ElementKind::EpisodeAlt), Vec::<String>::new());
}

#[test]
fn koi_to_senkyo_to_chocolate() {
    // Koi to Senkyo to Chocolate - 01 [BD 1080p FLAC] [5CDE0A1B].mkv
    let input = tokens(vec![
        word("Koi"),
        delimiter(" "),
        word("to"),
        delimiter(" "),
        word("Senkyo"),
        delimiter(" "),
        word("to"),
        delimiter(" "),
        word("Chocolate"),
        delimiter(" "),
        delimiter("-"),
        delimiter(" "),
        number("01"),
        delimiter(" "),
        open("["),
        keyword("BD", KeywordKind::Source),
        delimiter(" "),
        word("1080p"),
        delimiter(" "),
        keyword("FLAC", KeywordKind::AudioCodec),
        close("]"),
        delimiter(" "),
        open("["),
        word("5CDE0A1B"),
        close("]"),
        delimiter("."),
        keyword("mkv", KeywordKind::FileExtension),
    ]);
    let results = parse_with_options(input, Options::new());
    assert_eq!(values(&results, ElementKind::Episode), vec!["01"]);
    assert_eq!(values(&results, ElementKind::Source), vec!["BD"]);
    assert_eq!(values(&results, ElementKind::VideoResolution), vec!["1080p"]);
    assert_eq!(values(&results, ElementKind::AudioTerm), vec!["FLAC"]);
    assert_eq!(values(&results, ElementKind::FileChecksum), vec!["5CDE0A1B"]);
    assert_eq!(values(&results, ElementKind::Title), vec!["Koi to Senkyo to Chocolate"]);
    assert_eq!(values(&results, ElementKind::ReleaseGroup), Vec::<String>::new());
}

#[test]
fn season_and_episode_range() {
    // [Group] Show - S02E05-E07.mkv
    let input = tokens(vec![
        open("["),
        word("Group"),
        close("]"),
        delimiter(" "),
        word("Show"),
        delimiter(" "),
        delimiter("-"),
        delimiter(" "),
        word("S02E05-E07"),
        delimiter("."),
        keyword("mkv", KeywordKind::FileExtension),
    ]);
    let results = parse_with_options(input, Options::new());
    assert_eq!(values(&results, ElementKind::Season), vec!["02"]);
    assert_eq!(values(&results, ElementKind::Episode), vec!["05", "07"]);
    assert_eq!(values(&results, ElementKind::Title), vec!["Show"]);
    assert_eq!(values(&results, ElementKind::ReleaseGroup), vec!["Group"]);
}

#[test]
fn date_and_resolution() {
    // Show.Name.2009.12.24.720p.mkv
    let input = tokens(vec![
        word("Show"),
        delimiter("."),
        word("Name"),
        delimiter("."),
        word("2009.12"),
        delimiter("."),
        number("24"),
        delimiter("."),
        word("720p"),
        delimiter("."),
        keyword("mkv", KeywordKind::FileExtension),
    ]);
    let results = parse_with_options(input, Options::new());
    assert_eq!(values(&results, ElementKind::Date), vec!["2009.12.24"]);
    assert_eq!(values(&results, ElementKind::VideoResolution), vec!["720p"]);
    assert_eq!(values(&results, ElementKind::Title), vec!["Show Name"]);
    assert_eq!(values(&results, ElementKind::Year), Vec::<String>::new());
}

#[test]
fn two_numbers_joined_by_ampersand() {
    // [Group] Show - 119 & 120 [x264].mkv
    let mut input = tokens(vec![
        open("["),
        word("Group"),
        close("]"),
        delimiter(" "),
        word("Show"),
        delimiter(" "),
        delimiter("-"),
        delimiter(" "),
        number("119"),
        delimiter(" "),
        delimiter("&"),
        delimiter(" "),
        number("120"),
        delimiter(" "),
        open("["),
        keyword("x264", KeywordKind::VideoCodec),
        close("]"),
        delimiter("."),
        keyword("mkv", KeywordKind::FileExtension),
    ]);
    let results = extract(&mut input, &Options::new());
    // One episode is read, from the first number; the second number is
    // claimed with it and yields nothing of its own.
    assert_eq!(values(&results, ElementKind::Episode), vec!["119"]);
    assert_eq!(values(&results, ElementKind::EpisodeAlt), Vec::<String>::new());
    assert!(input[8].is_identified());
    assert!(input[10].is_identified());
    assert!(input[12].is_identified());
    assert_eq!(values(&results, ElementKind::VideoTerm), vec!["x264"]);
    assert_eq!(values(&results, ElementKind::Title), vec!["Show"]);
}

#[test]
fn single_digit_after_dash() {
    // [Group] Title - 1 [1A2B3C4D].mkv
    let input = tokens(vec![
        open("["),
        word("Group"),
        close("]"),
        delimiter(" "),
        word("Title"),
        delimiter(" "),
        delimiter("-"),
        delimiter(" "),
        number("1"),
        delimiter(" "),
        open("["),
        word("1A2B3C4D"),
        close("]"),
        delimiter("."),
        keyword("mkv", KeywordKind::FileExtension),
    ]);
    let results = parse_with_options(input, Options::new());
    assert_eq!(values(&results, ElementKind::Episode), vec!["1"]);
    assert_eq!(values(&results, ElementKind::FileChecksum), vec!["1A2B3C4D"]);
    assert_eq!(values(&results, ElementKind::Title), vec!["Title"]);
}

#[test]
fn episode_with_version_in_free_position() {
    let input = tokens(vec![word("Show"), delimiter(" "), word("01v2")]);
    let results = parse_with_options(input, Options::new());
    assert_eq!(values(&results, ElementKind::Episode), vec!["01"]);
    assert_eq!(values(&results, ElementKind::ReleaseVersion), vec!["2"]);
}

#[test]
fn season_with_two_episodes() {
    let input = tokens(vec![word("Show"), delimiter(" "), word("S01E02-E03")]);
    let results = parse_with_options(input, Options::new());
    assert_eq!(values(&results, ElementKind::Season), vec!["01"]);
    assert_eq!(values(&results, ElementKind::Episode), vec!["02", "03"]);
}

#[test]
fn file_extension_round_trip() {
    for extension in ["mkv", "mp4", "avi"] {
        let input = tokens(vec![
            word("BASENAME"),
            delimiter("."),
            keyword(extension, KeywordKind::FileExtension),
        ]);
        let results = parse_with_options(input, Options::new());
        assert_eq!(values(&results, ElementKind::FileExtension), vec![extension]);
    }
}

#[test]
fn every_claiming_element_has_a_claimed_token() {
    for input in [fullmetal(), toradora()] {
        let mut input = input;
        let results = extract(&mut input, &Options::new());
        assert!(!results.is_empty());
        for element in &results {
            assert!(input[element.position].is_identified());
        }
    }
}

#[test]
fn ambiguous_keyword_outside_brackets_is_emitted_unclaimed() {
    let mut input = tokens(vec![
        open("["),
        ambiguous("Dual", KeywordKind::AudioLanguage),
        close("]"),
        delimiter(" "),
        ambiguous("Dual", KeywordKind::AudioLanguage),
    ]);
    let options = Options {
        parse_title: false,
        parse_release_group: false,
        ..Options::new()
    };
    let results = extract(&mut input, &options);
    assert_eq!(values(&results, ElementKind::AudioTerm), vec!["Dual", "Dual"]);
    assert_eq!(positions(&results), vec![1, 4]);
    assert!(input[1].is_identified());
    assert!(!input[4].is_identified());
}

#[test]
fn results_are_sorted_by_position() {
    for input in [fullmetal(), toradora()] {
        let mut unsorted_input = input.clone();
        let unsorted = extract(&mut unsorted_input, &Options::new());
        let sorted = parse_with_options(input, Options::new());
        assert_eq!(sorted.len(), unsorted.len());
        for pair in sorted.windows(2) {
            assert!(pair[0].position <= pair[1].position);
        }
        // The extension is found first and stands last.
        assert_eq!(unsorted[0].kind, ElementKind::FileExtension);
        assert_eq!(sorted[sorted.len() - 1].kind, ElementKind::FileExtension);
        for element in &unsorted {
            assert!(sorted.contains(element));
        }
    }
}

#[test]
fn elements_of_one_position_keep_their_order() {
    let input = tokens(vec![word("Show"), delimiter(" "), word("S01E02-E03v2")]);
    let results = parse_with_options(input, Options::new());
    let at_token: Vec<(ElementKind, String)> = results
        .iter()
        .filter(|e| e.position == 2)
        .map(|e| (e.kind, e.value.clone()))
        .collect();
    assert_eq!(
        at_token,
        vec![
            (ElementKind::Season, "01".to_string()),
            (ElementKind::Episode, "02".to_string()),
            (ElementKind::Episode, "03".to_string()),
            (ElementKind::ReleaseVersion, "2".to_string()),
        ]
    );
}

#[test]
fn titles_keep_apart_from_other_elements() {
    let results = parse_with_options(toradora(), Options::new());
    // The title is the tokens 4..6, the episode title the tokens 16..22.
    for element in &results {
        match element.kind {
            ElementKind::Title => assert_eq!(element.position, 4),
            ElementKind::EpisodeTitle => assert_eq!(element.position, 16),
            _ => {
                assert!(!(4..6).contains(&element.position));
                assert!(!(16..22).contains(&element.position));
            }
        }
    }
}

#[test]
fn parsing_twice_gives_the_same_result() {
    for input in [fullmetal(), toradora()] {
        let first = parse_with_options(input.clone(), Options::new());
        let second = parse_with_options(input, Options::new());
        assert_eq!(first, second);
    }
}

#[test]
fn release_group_after_a_final_dash() {
    let input = tokens(vec![
        word("Show"),
        delimiter(" "),
        delimiter("-"),
        delimiter(" "),
        number("05"),
        delimiter(" "),
        delimiter("-"),
        word("Group"),
    ]);
    let results = parse_with_options(input, Options::new());
    assert_eq!(values(&results, ElementKind::ReleaseGroup), vec!["Group"]);
    assert_eq!(values(&results, ElementKind::Title), vec!["Show"]);
    assert_eq!(values(&results, ElementKind::Episode), vec!["05"]);
}

#[test]
fn extractors_that_are_switched_off_do_not_run() {
    let options = Options {
        parse_file_extension: false,
        parse_file_checksum: false,
        parse_video_resolution: false,
        parse_date: false,
        parse_year: false,
        parse_season: false,
        parse_episode: false,
        parse_episode_title: false,
        parse_title: false,
        parse_release_group: false,
    };
    let results = parse_with_options(fullmetal(), options);
    // Only the keyword sweep and the search for parts are left.
    assert_eq!(values(&results, ElementKind::VideoTerm), vec!["H.264"]);
    assert_eq!(values(&results, ElementKind::AudioTerm), vec!["AAC"]);
    assert_eq!(results.len(), 2);
}

#[test]
fn no_tokens_no_elements() {
    assert!(parse_with_options(Vec::new(), Options::new()).is_empty());
}

#[test]
fn bare_resolution_number_is_emitted_unclaimed() {
    let mut input = tokens(vec![word("Show"), delimiter(" "), number("720")]);
    let options = Options { parse_title: false, parse_episode: false, ..Options::new() };
    let results = extract(&mut input, &options);
    assert_eq!(values(&results, ElementKind::VideoResolution), vec!["720"]);
    assert_eq!(positions(&results), vec![2]);
    assert!(!input[2].is_identified());
}

#[test]
fn ambiguous_keyword_may_lie_within_the_title() {
    let mut input = tokens(vec![
        word("Show"),
        delimiter(" "),
        ambiguous("Dual", KeywordKind::AudioLanguage),
        delimiter(" "),
        word("Name"),
        delimiter(" "),
        delimiter("-"),
        delimiter(" "),
        number("01"),
    ]);
    let results = extract(&mut input, &Options::new());
    assert_eq!(values(&results, ElementKind::Title), vec!["Show Dual Name"]);
    assert_eq!(values(&results, ElementKind::AudioTerm), vec!["Dual"]);
    assert_eq!(values(&results, ElementKind::Episode), vec!["01"]);
    let audio = results.iter().find(|e| e.kind == ElementKind::AudioTerm).unwrap();
    assert_eq!(audio.position, 2);
    // The title has claimed the keyword's token after all.
    assert!(input[2].is_identified());
}

#[test]
fn title_in_brackets_may_run_over_claimed_tokens() {
    let results = parse_with_options(
        tokens(vec![
            open("["),
            word("Group"),
            close("]"),
            open("["),
            word("Show"),
            delimiter(" "),
            word("720p"),
            close("]"),
        ]),
        Options::new(),
    );
    assert_eq!(values(&results, ElementKind::Title), vec!["Show 720p"]);
    assert_eq!(values(&results, ElementKind::VideoResolution), vec!["720p"]);
    assert_eq!(values(&results, ElementKind::ReleaseGroup), vec!["Group"]);
    assert_eq!(positions(&results), vec![1, 4, 6]);
}

#[test]
fn part_keyword_does_not_end_the_title() {
    let mut input = tokens(vec![
        word("Show"),
        delimiter(" "),
        keyword("Part", KeywordKind::Part),
        delimiter(" "),
        number("2"),
        delimiter(" "),
        delimiter("-"),
        delimiter(" "),
        number("05"),
    ]);
    let results = extract(&mut input, &Options::new());
    assert_eq!(values(&results, ElementKind::Part), vec!["2"]);
    assert_eq!(values(&results, ElementKind::Episode), vec!["05"]);
    assert_eq!(values(&results, ElementKind::Title), vec!["Show Part"]);
    for element in &results {
        assert!(input[element.position].is_identified());
    }
}

#[test]
fn prefixed_episode_is_found_before_the_dash() {
    let results = parse_with_options(
        tokens(vec![
            word("Show"),
            delimiter(" "),
            delimiter("-"),
            delimiter(" "),
            number("05"),
            delimiter(" "),
            open("("),
            word("EP17"),
            delimiter(" "),
            word("x"),
            close(")"),
        ]),
        Options::new(),
    );
    assert_eq!(values(&results, ElementKind::Episode), vec!["17"]);
    assert_eq!(values(&results, ElementKind::EpisodeAlt), Vec::<String>::new());
}

#[test]
fn alternative_episode_from_the_second_pass() {
    let pieces = || vec![word("Show"), delimiter(" "), word("EP05"), delimiter(" "), word("EP17")];
    let options =
        Options { parse_release_group: false, parse_episode_title: false, ..Options::new() };
    let results = parse_with_options(tokens(pieces()), options);
    assert_eq!(values(&results, ElementKind::Episode), vec!["05"]);
    assert_eq!(values(&results, ElementKind::EpisodeAlt), vec!["17"]);
    assert_eq!(values(&results, ElementKind::Title), vec!["Show"]);
    // With the episode title asked for, it takes the free text first.
    let results = parse_with_options(tokens(pieces()), Options::new());
    assert_eq!(values(&results, ElementKind::Episode), vec!["05"]);
    assert_eq!(values(&results, ElementKind::EpisodeTitle), vec!["EP17"]);
    assert_eq!(values(&results, ElementKind::EpisodeAlt), Vec::<String>::new());
    // Without the search for episodes there is neither.
    let options = Options { parse_episode: false, ..Options::new() };
    let results = parse_with_options(tokens(pieces()), options);
    assert_eq!(values(&results, ElementKind::Episode), Vec::<String>::new());
    assert_eq!(values(&results, ElementKind::EpisodeTitle), Vec::<String>::new());
    assert_eq!(values(&results, ElementKind::Title), vec!["Show EP05 EP17"]);
}
