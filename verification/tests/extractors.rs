//! The extractors other than the search for episodes, and the helpers.

use anitomy::element::{contains_kind, Element, ElementKind};
use anitomy::keyword::{Keyword, KeywordKind};
use anitomy::order::sort_elements;
use anitomy::parser::common::{
    is_japanese_number, is_token_isolated, is_valid_episode_number, is_valid_japanese_episode,
};
use anitomy::parser::episode_title::{find_episode_title, parse_episode_title};
use anitomy::parser::file_checksum::parse_file_checksum;
use anitomy::parser::file_extension::parse_file_extension;
use anitomy::parser::keywords::{keyword_kind_to_element_kind, parse_keywords};
use anitomy::parser::part::parse_part;
use anitomy::parser::release_group::{
    find_release_group, get_last_index_for_release_group, parse_release_group,
};
use anitomy::parser::season::{inner_parse_season, parse_season};
use anitomy::parser::title::{find_title, parse_title};
use anitomy::parser::video_resolution::{parse_video_resolution, take_resolution};
use anitomy::parser::volume::parse_volume;
use anitomy::parser::year::{is_day, is_month, is_year, parse_date, parse_year};
use anitomy::text::parse_number;
use anitomy::token::{
    combine_tokens, is_dash, opposite_bracket, KeepDelimiters, Token, TokenCategory,
};
use anitomy::utils::{
    find_next_token, find_pair, find_prev_token, from_ordinal_number, from_roman_number, TokenTest,
};
use anitomy::Options;

struct Piece {
    text: &'static str,
    category: TokenCategory,
    keyword: Option<Keyword>,
}

fn word(text: &'static str) -> Piece {
    Piece { text, category: TokenCategory::Word, keyword: None }
}

fn number(text: &'static str) -> Piece {
    Piece { text, category: TokenCategory::Number, keyword: None }
}

fn delimiter(text: &'static str) -> Piece {
    Piece { text, category: TokenCategory::Delimiter, keyword: None }
}

fn open(text: &'static str) -> Piece {
    Piece { text, category: TokenCategory::OpenBracket, keyword: None }
}

fn close(text: &'static str) -> Piece {
    Piece { text, category: TokenCategory::ClosedBracket, keyword: None }
}

fn keyword(text: &'static str, kind: KeywordKind) -> Piece {
    Piece { text, category: TokenCategory::Word, keyword: Some(Keyword::new(kind)) }
}

fn ambiguous(text: &'static str, kind: KeywordKind) -> Piece {
    Piece { text, category: TokenCategory::Word, keyword: Some(Keyword::ambiguous(kind)) }
}

fn tokens(pieces: Vec<Piece>) -> Vec<Token> {
    let mut depth = 0usize;
    let mut out = Vec::new();
    for (position, piece) in pieces.into_iter().enumerate() {
        if piece.category == TokenCategory::ClosedBracket && depth > 0 {
            depth -= 1;
        }
        out.push(Token::new(piece.text, position, piece.category, piece.keyword, depth > 0));
        if piece.category == TokenCategory::OpenBracket {
            depth += 1;
        }
    }
    out
}

fn found(results: &[Element]) -> Vec<(ElementKind, &str, usize)> {
    results.iter().map(|e| (e.kind, e.value.as_str(), e.position)).collect()
}

fn one(result: &Option<Element>) -> Option<(ElementKind, &str, usize)> {
    result.as_ref().map(|e| (e.kind, e.value.as_str(), e.position))
}

fn claimed(tokens: &[Token]) -> Vec<usize> {
    tokens.iter().enumerate().filter(|(_, t)| t.is_identified()).map(|(i, _)| i).collect()
}

// --- the token model --------------------------------------------------

#[test]
fn token_predicates() {
    let mut token = Token::new("12a", 3, TokenCategory::Word, None, true);
    assert_eq!(token.value(), "12a");
    assert_eq!(token.position(), 3);
    assert_eq!(token.category(), TokenCategory::Word);
    assert_eq!(token.keyword(), None);
    assert!(token.is_enclosed());
    assert!(!token.is_identified());
    assert!(token.is_free());
    assert!(token.is_not_delimiter());
    assert!(!token.is_delimiter());
    assert!(!token.is_number());
    assert!(!token.is_bracket());
    assert!(token.is_mostly_numbers());
    token.mark_known();
    assert!(token.is_identified());
    assert!(!token.is_free());
    assert_eq!(token.value(), "12a");
    assert_eq!(token.position(), 3);
}

#[test]
fn brackets_and_delimiters_are_never_free() {
    for category in
        [TokenCategory::Delimiter, TokenCategory::OpenBracket, TokenCategory::ClosedBracket]
    {
        assert!(!Token::new("x", 0, category, None, false).is_free());
    }
    assert!(Token::new("(", 0, TokenCategory::OpenBracket, None, false).is_open_bracket());
    assert!(Token::new(")", 0, TokenCategory::ClosedBracket, None, false).is_closed_bracket());
    assert!(Token::new(")", 0, TokenCategory::ClosedBracket, None, false).is_bracket());
}

#[test]
fn mostly_numbers_is_a_majority() {
    let mostly = |text: &str| Token::new(text, 0, TokenCategory::Word, None, false).is_mostly_numbers();
    assert!(mostly("1"));
    assert!(mostly("01v2"));
    assert!(mostly("1-2"));
    assert!(!mostly("1a"));
    assert!(!mostly(""));
    assert!(!mostly("abc1"));
}

#[test]
fn keyword_of_a_token() {
    let token = Token::new(
        "Vol",
        0,
        TokenCategory::Word,
        Some(Keyword::ambiguous(KeywordKind::Volume)),
        false,
    );
    assert!(token.has_keyword(KeywordKind::Volume));
    assert!(!token.has_keyword(KeywordKind::Part));
    assert!(token.keyword().unwrap().is_ambiguous());
    assert!(!Keyword::new(KeywordKind::Volume).is_ambiguous());
}

#[test]
fn opposite_brackets() {
    let pairs = [
        ('(', ')'),
        ('[', ']'),
        ('{', '}'),
        ('「', '」'),
        ('『', '』'),
        ('（', '）'),
        ('【', '】'),
        ('《', '》'),
        ('〈', '〉'),
    ];
    for (opening, closing) in pairs {
        assert_eq!(opposite_bracket(opening), Some(closing));
        assert_eq!(opposite_bracket(closing), None);
    }
    assert_eq!(opposite_bracket('a'), None);
    assert_eq!(opposite_bracket('<'), None);
}

#[test]
fn dashes() {
    for c in ['-', '\u{2010}', '\u{2011}', '\u{2012}', '\u{2013}', '\u{2014}', '\u{2015}'] {
        assert!(is_dash(c));
    }
    for c in ['_', '~', '\u{2016}', '\u{200f}', 'a'] {
        assert!(!is_dash(c));
    }
}

#[test]
fn combining_tokens() {
    let input = tokens(vec![
        delimiter("_"),
        word("Tiger"),
        delimiter("_"),
        delimiter("-"),
        delimiter("_"),
        word("and"),
        delimiter("."),
        word("Dragon"),
        delimiter("_"),
    ]);
    assert_eq!(combine_tokens(&input, KeepDelimiters::No), "Tiger and Dragon");
    assert_eq!(combine_tokens(&input, KeepDelimiters::Yes), "_Tiger_-_and.Dragon_");
    assert_eq!(combine_tokens(&input[3..4], KeepDelimiters::No), "");
    assert_eq!(combine_tokens(&[], KeepDelimiters::Yes), "");
    let spaced = tokens(vec![delimiter(" "), word("a"), delimiter(" "), word("b"), delimiter(" ")]);
    assert_eq!(combine_tokens(&spaced, KeepDelimiters::Yes), "a b");
}

// --- searches ---------------------------------------------------------

#[test]
fn finding_the_next_token() {
    let input = tokens(vec![word("a"), delimiter(" "), word("b"), delimiter(" ")]);
    assert_eq!(find_next_token(&input, 0, false, TokenTest::NotDelimiter), Some(0));
    assert_eq!(find_next_token(&input, 0, true, TokenTest::NotDelimiter), Some(2));
    assert_eq!(find_next_token(&input, 2, true, TokenTest::NotDelimiter), None);
    assert_eq!(find_next_token(&input, 3, true, TokenTest::NotDelimiter), None);
    assert_eq!(find_next_token(&input, 9, false, TokenTest::NotDelimiter), None);
    assert_eq!(find_next_token(&input, usize::MAX, true, TokenTest::NotDelimiter), None);
    assert_eq!(find_next_token(&input, 0, false, TokenTest::Identified), None);
}

#[test]
fn finding_the_previous_token() {
    let input = tokens(vec![word("a"), delimiter(" "), word("b"), delimiter(" ")]);
    assert_eq!(find_prev_token(&input, None, TokenTest::NotDelimiter), Some(2));
    assert_eq!(find_prev_token(&input, Some(2), TokenTest::NotDelimiter), Some(0));
    assert_eq!(find_prev_token(&input, Some(0), TokenTest::NotDelimiter), None);
    assert_eq!(find_prev_token(&input, Some(99), TokenTest::NotDelimiter), Some(2));
    assert_eq!(find_prev_token(&input, None, TokenTest::OpenBracket), None);
}

#[test]
fn finding_a_pair() {
    let input = tokens(vec![
        open("["),
        word("a"),
        close("]"),
        delimiter(" "),
        open("("),
        word("b"),
        close(")"),
    ]);
    assert_eq!(find_pair(&input, TokenTest::ClosedBracket, TokenTest::OpenBracket), Some((2, 4)));
    assert_eq!(find_pair(&input, TokenTest::OpenBracket, TokenTest::OpenBracket), Some((0, 4)));
    assert_eq!(find_pair(&input, TokenTest::ClosedBracketOf(')'), TokenTest::OpenBracket), None);
    assert_eq!(find_pair(&input, TokenTest::Identified, TokenTest::OpenBracket), None);
}

#[test]
fn token_tests() {
    let input = tokens(vec![
        open("「"),
        keyword("part", KeywordKind::Part),
        delimiter("&"),
        close("」"),
        keyword("OVA", KeywordKind::Type),
        keyword("MOVIE", KeywordKind::Type),
    ]);
    let passes = |test: TokenTest| -> Vec<usize> {
        (0..input.len()).filter(|&i| test.check(&input[i])).collect()
    };
    assert_eq!(passes(TokenTest::NotDelimiter), vec![0, 1, 3, 4, 5]);
    assert_eq!(passes(TokenTest::NotDelimiterOrJoiner), vec![0, 1, 2, 3, 4, 5]);
    assert_eq!(passes(TokenTest::Free), vec![1, 4, 5]);
    assert_eq!(passes(TokenTest::FreeNotEnclosed), vec![4, 5]);
    assert_eq!(passes(TokenTest::EnclosedFree), vec![1]);
    assert_eq!(passes(TokenTest::EnclosedNotIdentified), vec![1, 2]);
    assert_eq!(passes(TokenTest::OpenBracket), vec![0]);
    assert_eq!(passes(TokenTest::OpenBracketNotEnclosed), vec![0]);
    assert_eq!(passes(TokenTest::ClosedBracket), vec![3]);
    assert_eq!(passes(TokenTest::OpenBracketOf('「')), vec![0]);
    assert_eq!(passes(TokenTest::OpenBracketOf('[')), Vec::<usize>::new());
    assert_eq!(passes(TokenTest::ClosedBracketOf('」')), vec![3]);
    assert_eq!(passes(TokenTest::ClosedBracketFrom('」')), vec![3]);
    assert_eq!(passes(TokenTest::BracketFrom('「')), vec![0]);
    assert_eq!(passes(TokenTest::TitleEnd), vec![0]);
    assert_eq!(passes(TokenTest::TypeButMovie), vec![4]);
    assert_eq!(passes(TokenTest::OpenText), vec![0, 3, 4, 5]);
    assert_eq!(passes(TokenTest::Identified), Vec::<usize>::new());
}

#[test]
fn a_title_ends_at_claimed_tokens_but_parts() {
    let mut input = tokens(vec![keyword("Part", KeywordKind::Part), number("2"), word("x")]);
    input[0].mark_known();
    input[1].mark_known();
    assert!(!TokenTest::TitleEnd.check(&input[0]));
    assert!(TokenTest::TitleEnd.check(&input[1]));
    assert!(!TokenTest::TitleEnd.check(&input[2]));
}

// --- words and numbers ------------------------------------------------

#[test]
fn ordinal_words() {
    let words = [
        "first", "second", "third", "fourth", "fifth", "sixth", "seventh", "eighth", "ninth",
        "tenth", "eleventh", "twelfth", "thirteenth",
    ];
    for (i, text) in words.iter().enumerate() {
        let expected = (i + 1).to_string();
        assert_eq!(from_ordinal_number(text), Some(expected.as_str()));
        assert_eq!(from_ordinal_number(&text.to_uppercase()), Some(expected.as_str()));
    }
    assert_eq!(from_ordinal_number("First"), Some("1"));
    assert_eq!(from_ordinal_number("fourteenth"), None);
    assert_eq!(from_ordinal_number("1st"), None);
    assert_eq!(from_ordinal_number(""), None);
    assert_eq!(from_ordinal_number("firs"), None);
}

#[test]
fn roman_numerals() {
    let numerals =
        ["I", "II", "III", "IV", "V", "VI", "VII", "VIII", "IX", "X", "XI", "XII", "XIII"];
    for (i, text) in numerals.iter().enumerate() {
        let expected = (i + 1).to_string();
        assert_eq!(from_roman_number(text), Some(expected.as_str()));
        assert_eq!(from_roman_number(&text.to_lowercase()), Some(expected.as_str()));
    }
    assert_eq!(from_roman_number("XIV"), None);
    assert_eq!(from_roman_number("Ii"), None);
    assert_eq!(from_roman_number(""), None);
    assert_eq!(from_roman_number("IIII"), None);
}

#[test]
fn reading_numbers() {
    assert_eq!(parse_number("0", 255), Some(0));
    assert_eq!(parse_number("12", 255), Some(12));
    assert_eq!(parse_number("+12", 255), Some(12));
    assert_eq!(parse_number("00012", 255), Some(12));
    assert_eq!(parse_number("255", 255), Some(255));
    assert_eq!(parse_number("256", 255), None);
    assert_eq!(parse_number("65535", u16::MAX), Some(65535));
    assert_eq!(parse_number("65536", u16::MAX), None);
    assert_eq!(parse_number("99999999999999999999", u16::MAX), None);
    assert_eq!(parse_number("", 255), None);
    assert_eq!(parse_number("+", 255), None);
    assert_eq!(parse_number("-1", 255), None);
    assert_eq!(parse_number("1 ", 255), None);
    assert_eq!(parse_number("1_0", 255), None);
    assert_eq!(parse_number("１２", 255), None);
}

#[test]
fn years_months_days() {
    assert!(is_year("1950"));
    assert!(is_year("2050"));
    assert!(!is_year("1949"));
    assert!(!is_year("2051"));
    assert!(!is_year("20x0"));
    assert!(!is_year(""));
    assert!(is_month("1"));
    assert!(is_month("12"));
    assert!(!is_month("0"));
    assert!(!is_month("13"));
    assert!(is_day("1"));
    assert!(is_day("31"));
    assert!(!is_day("0"));
    assert!(!is_day("32"));
    assert!(!is_day("300"));
}

#[test]
fn episode_numbers() {
    assert!(is_valid_episode_number("1"));
    assert!(is_valid_episode_number("0123"));
    assert!(!is_valid_episode_number(""));
    assert!(!is_valid_episode_number("12345"));
    assert!(!is_valid_episode_number("12a"));
    assert!(!is_valid_episode_number("１２"));
    for c in "〇一二三四五六七八九十百千".chars() {
        assert!(is_japanese_number(c));
    }
    assert!(!is_japanese_number('1'));
    assert!(!is_japanese_number('万'));
    assert!(is_valid_japanese_episode("12"));
    assert!(is_valid_japanese_episode("十"));
    assert!(is_valid_japanese_episode("一二三四"));
    assert!(!is_valid_japanese_episode("一二三四五"));
    assert!(!is_valid_japanese_episode("1二"));
    assert!(!is_valid_japanese_episode(""));
    assert!(!is_valid_japanese_episode("万"));
}

#[test]
fn isolated_tokens() {
    let input = tokens(vec![
        open("["),
        delimiter(" "),
        number("12"),
        close("]"),
        word("a"),
        delimiter(" "),
        number("13"),
        open("("),
    ]);
    assert!(is_token_isolated(&input, 2));
    assert!(!is_token_isolated(&input, 6));
    assert!(!is_token_isolated(&input, 4));
    assert!(!is_token_isolated(&input, 0));
    assert!(!is_token_isolated(&input, 7));
    assert!(!is_token_isolated(&input, 8));
}

// --- extractors -------------------------------------------------------

#[test]
fn file_extension() {
    let mut input =
        tokens(vec![word("a"), delimiter("."), keyword("mkv", KeywordKind::FileExtension)]);
    let result = parse_file_extension(&mut input);
    assert_eq!(one(&result), Some((ElementKind::FileExtension, "mkv", 2)));
    assert_eq!(claimed(&input), vec![1, 2]);
    // Once claimed, the extension is not read again.
    assert!(parse_file_extension(&mut input).is_none());
}

#[test]
fn no_file_extension() {
    let cases = vec![
        vec![word("a"), delimiter("_"), keyword("mkv", KeywordKind::FileExtension)],
        vec![word("a"), delimiter("."), word("mkv")],
        vec![word("a"), word("."), keyword("mkv", KeywordKind::FileExtension)],
        vec![keyword("mkv", KeywordKind::FileExtension), delimiter("."), word("a")],
        vec![keyword("mkv", KeywordKind::FileExtension)],
        vec![],
    ];
    for pieces in cases {
        let mut input = tokens(pieces);
        assert!(parse_file_extension(&mut input).is_none());
        assert!(claimed(&input).is_empty());
    }
}

#[test]
fn file_checksum_is_the_rightmost() {
    let mut input = tokens(vec![
        word("ABCDEF01"),
        delimiter(" "),
        word("abcdef02"),
        delimiter(" "),
        word("ABCDEFG3"),
        delimiter(" "),
        word("ABCDEF0"),
    ]);
    let result = parse_file_checksum(&mut input);
    assert_eq!(one(&result), Some((ElementKind::FileChecksum, "abcdef02", 2)));
    assert_eq!(claimed(&input), vec![2]);
    let result = parse_file_checksum(&mut input);
    assert_eq!(one(&result), Some((ElementKind::FileChecksum, "ABCDEF01", 0)));
    assert!(parse_file_checksum(&mut input).is_none());
}

#[test]
fn keyword_kinds() {
    let table = [
        (KeywordKind::AudioChannels, Some(ElementKind::AudioTerm)),
        (KeywordKind::AudioCodec, Some(ElementKind::AudioTerm)),
        (KeywordKind::AudioLanguage, Some(ElementKind::AudioTerm)),
        (KeywordKind::DeviceCompatibility, Some(ElementKind::DeviceCompatibility)),
        (KeywordKind::EpisodeType, Some(ElementKind::Type)),
        (KeywordKind::Episode, None),
        (KeywordKind::FileExtension, None),
        (KeywordKind::Language, Some(ElementKind::Language)),
        (KeywordKind::Other, Some(ElementKind::Other)),
        (KeywordKind::Part, None),
        (KeywordKind::ReleaseGroup, Some(ElementKind::ReleaseGroup)),
        (KeywordKind::ReleaseInformation, Some(ElementKind::ReleaseInformation)),
        (KeywordKind::ReleaseVersion, Some(ElementKind::ReleaseVersion)),
        (KeywordKind::Season, None),
        (KeywordKind::Source, Some(ElementKind::Source)),
        (KeywordKind::Subtitles, Some(ElementKind::Subtitles)),
        (KeywordKind::Type, Some(ElementKind::Type)),
        (KeywordKind::VideoCodec, Some(ElementKind::VideoTerm)),
        (KeywordKind::VideoColorDepth, Some(ElementKind::VideoTerm)),
        (KeywordKind::VideoFormat, Some(ElementKind::VideoTerm)),
        (KeywordKind::VideoFrameRate, Some(ElementKind::VideoTerm)),
        (KeywordKind::VideoProfile, Some(ElementKind::VideoTerm)),
        (KeywordKind::VideoQuality, Some(ElementKind::VideoTerm)),
        (KeywordKind::VideoResolution, Some(ElementKind::VideoResolution)),
        (KeywordKind::Volume, None),
    ];
    for (keyword, element) in table {
        assert_eq!(keyword_kind_to_element_kind(keyword), element);
    }
}

#[test]
fn keyword_sweep() {
    let mut input = tokens(vec![
        keyword("BD", KeywordKind::Source),
        delimiter(" "),
        ambiguous("Dual", KeywordKind::AudioLanguage),
        delimiter(" "),
        keyword("v2", KeywordKind::ReleaseVersion),
        delimiter(" "),
        keyword("Season", KeywordKind::Season),
        open("["),
        ambiguous("Dual", KeywordKind::AudioLanguage),
        close("]"),
        keyword("THORA", KeywordKind::ReleaseGroup),
        keyword("480p", KeywordKind::VideoResolution),
    ]);
    let mut results = Vec::new();
    parse_keywords(&mut input, &Options::new(), &mut results);
    assert_eq!(
        found(&results),
        vec![
            (ElementKind::Source, "BD", 0),
            (ElementKind::AudioTerm, "Dual", 2),
            (ElementKind::ReleaseVersion, "2", 4),
            (ElementKind::AudioTerm, "Dual", 8),
            (ElementKind::ReleaseGroup, "THORA", 10),
            (ElementKind::VideoResolution, "480p", 11),
        ]
    );
    assert_eq!(claimed(&input), vec![0, 4, 8, 10, 11]);
    // Claimed tokens are not read again; the ambiguous one still is.
    let mut again = Vec::new();
    parse_keywords(&mut input, &Options::new(), &mut again);
    assert_eq!(found(&again), vec![(ElementKind::AudioTerm, "Dual", 2)]);
}

#[test]
fn keyword_sweep_obeys_the_options() {
    let pieces = || {
        vec![
            keyword("THORA", KeywordKind::ReleaseGroup),
            keyword("480p", KeywordKind::VideoResolution),
            keyword("BD", KeywordKind::Source),
        ]
    };
    let mut input = tokens(pieces());
    let mut results = Vec::new();
    let options =
        Options { parse_release_group: false, parse_video_resolution: false, ..Options::new() };
    parse_keywords(&mut input, &options, &mut results);
    assert_eq!(found(&results), vec![(ElementKind::Source, "BD", 2)]);
    assert_eq!(claimed(&input), vec![2]);
    let mut input = tokens(pieces());
    let mut results = Vec::new();
    let options = Options { parse_release_group: false, ..Options::new() };
    parse_keywords(&mut input, &options, &mut results);
    assert_eq!(
        found(&results),
        vec![(ElementKind::VideoResolution, "480p", 1), (ElementKind::Source, "BD", 2)]
    );
}

#[test]
fn release_version_keyword_without_text() {
    let mut input = tokens(vec![keyword("", KeywordKind::ReleaseVersion)]);
    let mut results = Vec::new();
    parse_keywords(&mut input, &Options::new(), &mut results);
    assert_eq!(found(&results), vec![(ElementKind::ReleaseVersion, "", 0)]);
}

#[test]
fn video_resolutions() {
    let mut input = tokens(vec![
        word("1920x1080"),
        delimiter(" "),
        word("720p"),
        delimiter(" "),
        word("480i"),
        delimiter(" "),
        word("1280X720P"),
        delimiter(" "),
        word("640×480"),
        delimiter(" "),
        number("1080"),
        delimiter(" "),
        word("12p"),
        delimiter(" "),
        word("12345p"),
        delimiter(" "),
        word("x1080p"),
    ]);
    let mut results = Vec::new();
    parse_video_resolution(&mut input, &mut results);
    assert_eq!(
        found(&results),
        vec![
            (ElementKind::VideoResolution, "1920x1080", 0),
            (ElementKind::VideoResolution, "720p", 2),
            (ElementKind::VideoResolution, "480i", 4),
            (ElementKind::VideoResolution, "1280X720P", 6),
            (ElementKind::VideoResolution, "640×480", 8),
        ]
    );
    assert_eq!(claimed(&input), vec![0, 2, 4, 6, 8]);
}

#[test]
fn bare_resolution_is_emitted_and_not_claimed() {
    let mut input = tokens(vec![word("Show"), delimiter(" "), number("720"), number("1080")]);
    let mut results = Vec::new();
    parse_video_resolution(&mut input, &mut results);
    assert_eq!(found(&results), vec![(ElementKind::VideoResolution, "720", 2)]);
    assert!(claimed(&input).is_empty());
    // A resolution already among the results stands in its way.
    let mut results = vec![Element {
        kind: ElementKind::VideoResolution,
        value: "480p".to_string(),
        position: 9,
    }];
    parse_video_resolution(&mut input, &mut results);
    assert_eq!(results.len(), 1);
    // So does any number that is neither 1080 nor 720, or is no number.
    let mut input = tokens(vec![number("1081"), word("720")]);
    let mut results = Vec::new();
    parse_video_resolution(&mut input, &mut results);
    assert!(results.is_empty());
}

#[test]
fn taking_a_resolution() {
    let mut input = tokens(vec![word("a"), delimiter(" ")]);
    let mut results = Vec::new();
    assert!(!take_resolution(&mut input, 0, false, &mut results));
    assert!(!take_resolution(&mut input, 1, true, &mut results));
    assert!(results.is_empty());
    assert!(take_resolution(&mut input, 0, true, &mut results));
    assert_eq!(found(&results), vec![(ElementKind::VideoResolution, "a", 0)]);
    assert_eq!(claimed(&input), vec![0]);
    assert!(!take_resolution(&mut input, 0, true, &mut results));
    assert!(contains_kind(&results, ElementKind::VideoResolution));
    assert!(!contains_kind(&results, ElementKind::Title));
}

#[test]
fn date_of_three_tokens() {
    let mut input = tokens(vec![
        word("Show"),
        delimiter(" "),
        word("2009-12"),
        delimiter("-"),
        number("24"),
    ]);
    let result = parse_date(&mut input);
    assert_eq!(one(&result), Some((ElementKind::Date, "2009-12-24", 2)));
    assert_eq!(claimed(&input), vec![2, 3, 4]);
    assert!(parse_date(&mut input).is_none());
}

#[test]
fn no_date() {
    let cases = vec![
        vec![word("1949.12"), delimiter("."), number("24")],
        vec![word("2009.13"), delimiter("."), number("24")],
        vec![word("2009.12"), delimiter("."), number("32")],
        vec![word("2009.12"), delimiter("_"), number("24")],
        vec![word("2009.12"), delimiter("."), word("24")],
        vec![word("200912"), delimiter("."), number("24")],
        vec![word("2009.12"), delimiter(".")],
        vec![word("2009.12"), word("."), number("24")],
    ];
    for pieces in cases {
        let mut input = tokens(pieces);
        assert!(parse_date(&mut input).is_none());
        assert!(claimed(&input).is_empty());
    }
}

#[test]
fn year_in_brackets() {
    let mut input = tokens(vec![
        word("Show"),
        delimiter(" "),
        number("2001"),
        delimiter(" "),
        open("("),
        number("1999"),
        close(")"),
    ]);
    let result = parse_year(&mut input);
    assert_eq!(one(&result), Some((ElementKind::Year, "1999", 5)));
    assert_eq!(claimed(&input), vec![5]);
}

#[test]
fn year_between_free_tokens_is_none() {
    let mut input = tokens(vec![
        word("Show"),
        delimiter(" "),
        number("2000"),
        delimiter(" "),
        word("Name"),
    ]);
    assert!(parse_year(&mut input).is_none());
    assert!(claimed(&input).is_empty());
}

#[test]
fn isolated_year_outside_brackets() {
    let mut input = tokens(vec![
        open("["),
        word("a"),
        close("]"),
        delimiter(" "),
        number("2010"),
        delimiter(" "),
        open("["),
        word("b"),
        close("]"),
    ]);
    let result = parse_year(&mut input);
    assert_eq!(one(&result), Some((ElementKind::Year, "2010", 4)));
    let mut input = tokens(vec![open("["), number("1800"), close("]"), word("1999")]);
    assert!(parse_year(&mut input).is_none());
}

#[test]
fn season_named_with_a_keyword() {
    let mut input = tokens(vec![
        word("Second"),
        delimiter(" "),
        keyword("Season", KeywordKind::Season),
    ]);
    let result = inner_parse_season(&mut input);
    assert_eq!(one(&result), Some((ElementKind::Season, "2", 0)));
    assert_eq!(claimed(&input), vec![0, 1, 2]);
    let mut input = tokens(vec![
        keyword("Season", KeywordKind::Season),
        delimiter(" "),
        number("3"),
    ]);
    let result = inner_parse_season(&mut input);
    assert_eq!(one(&result), Some((ElementKind::Season, "3", 2)));
    let mut input = tokens(vec![
        keyword("Season", KeywordKind::Season),
        delimiter(" "),
        word("II"),
    ]);
    let result = inner_parse_season(&mut input);
    assert_eq!(one(&result), Some((ElementKind::Season, "2", 2)));
    let mut input = tokens(vec![
        keyword("Season", KeywordKind::Season),
        delimiter(" "),
        word("Two"),
    ]);
    assert!(inner_parse_season(&mut input).is_none());
    assert!(claimed(&input).is_empty());
}

#[test]
fn seasons_written_in_a_token() {
    let mut input = tokens(vec![
        word("S01"),
        delimiter(" "),
        word("s2"),
        delimiter(" "),
        word("S01-S02"),
        delimiter(" "),
        word("S3~4"),
        delimiter(" "),
        word("第2期"),
        delimiter(" "),
        word("3期"),
        delimiter(" "),
        word("第1期-第2期"),
        delimiter(" "),
        word("S123"),
        delimiter(" "),
        word("Show"),
        delimiter(" "),
        word("S"),
        delimiter(" "),
        word("第123期"),
    ]);
    let mut results = Vec::new();
    parse_season(&mut input, &mut results);
    assert_eq!(
        found(&results),
        vec![
            (ElementKind::Season, "01", 0),
            (ElementKind::Season, "2", 2),
            (ElementKind::Season, "01", 4),
            (ElementKind::Season, "02", 4),
            (ElementKind::Season, "3", 6),
            (ElementKind::Season, "4", 6),
            (ElementKind::Season, "2", 8),
            (ElementKind::Season, "3", 10),
            (ElementKind::Season, "1", 12),
            (ElementKind::Season, "2", 12),
        ]
    );
    assert_eq!(claimed(&input), vec![0, 2, 4, 6, 8, 10, 12]);
}

#[test]
fn season_keyword_ends_the_search() {
    let mut input = tokens(vec![
        word("S01"),
        delimiter(" "),
        keyword("Season", KeywordKind::Season),
        delimiter(" "),
        number("2"),
    ]);
    let mut results = Vec::new();
    parse_season(&mut input, &mut results);
    assert_eq!(found(&results), vec![(ElementKind::Season, "2", 4)]);
    assert_eq!(claimed(&input), vec![2, 3, 4]);
}

#[test]
fn part_after_keyword() {
    let mut input = tokens(vec![
        keyword("Part", KeywordKind::Part),
        delimiter(" "),
        number("2"),
        delimiter(" "),
        keyword("Part", KeywordKind::Part),
        delimiter(" "),
        word("Two"),
        keyword("Part", KeywordKind::Part),
    ]);
    let mut results = Vec::new();
    parse_part(&mut input, &mut results);
    assert_eq!(found(&results), vec![(ElementKind::Part, "2", 2)]);
    assert_eq!(claimed(&input), vec![0, 2]);
}

#[test]
fn part_is_not_read_from_a_claimed_number() {
    let mut input = tokens(vec![keyword("Part", KeywordKind::Part), delimiter(" "), number("2")]);
    input[2].mark_known();
    let mut results = Vec::new();
    parse_part(&mut input, &mut results);
    assert!(results.is_empty());
    assert_eq!(claimed(&input), vec![2]);
}

#[test]
fn volume_after_keyword() {
    let mut input = tokens(vec![
        keyword("Vol", KeywordKind::Volume),
        delimiter("."),
        word("03v2"),
        delimiter(" "),
        keyword("Vol", KeywordKind::Volume),
        delimiter("."),
        word("01-02"),
        delimiter(" "),
        keyword("Vol", KeywordKind::Volume),
        delimiter("."),
        word("x"),
    ]);
    let mut results = Vec::new();
    parse_volume(&mut input, &mut results);
    assert_eq!(
        found(&results),
        vec![
            (ElementKind::Volume, "03", 2),
            (ElementKind::ReleaseVersion, "2", 2),
            (ElementKind::Volume, "01", 6),
            (ElementKind::Volume, "02", 6),
        ]
    );
    assert_eq!(claimed(&input), vec![0, 2, 4, 6]);
}

#[test]
fn title_of_free_text() {
    let mut input = tokens(vec![
        open("["),
        word("Group"),
        close("]"),
        delimiter(" "),
        word("My"),
        delimiter("_"),
        word("Show"),
        delimiter(" "),
        open("["),
        word("x"),
        close("]"),
    ]);
    assert_eq!(find_title(&input), Some((4, 8)));
    let result = parse_title(&mut input);
    assert_eq!(one(&result), Some((ElementKind::Title, "My Show", 4)));
    assert_eq!(claimed(&input), vec![4, 5, 6, 7]);
}

#[test]
fn title_ends_at_a_claimed_token() {
    let mut input = tokens(vec![
        word("Show"),
        delimiter(" "),
        keyword("Part", KeywordKind::Part),
        delimiter(" "),
        number("2"),
        delimiter(" "),
        word("more"),
    ]);
    input[2].mark_known();
    input[4].mark_known();
    assert_eq!(find_title(&input), Some((0, 4)));
    let result = parse_title(&mut input);
    assert_eq!(one(&result), Some((ElementKind::Title, "Show Part", 0)));
}

#[test]
fn title_runs_to_the_end() {
    let mut input = tokens(vec![word("Show"), delimiter(" "), word("Name"), delimiter(" ")]);
    assert_eq!(find_title(&input), Some((0, 4)));
    let result = parse_title(&mut input);
    assert_eq!(one(&result), Some((ElementKind::Title, "Show Name", 0)));
    assert_eq!(claimed(&input), vec![0, 1, 2, 3]);
}

#[test]
fn title_inside_brackets() {
    let mut input = tokens(vec![
        open("["),
        word("Group"),
        close("]"),
        open("["),
        word("Show"),
        delimiter(" "),
        word("Name"),
        close("]"),
        open("["),
        word("x"),
        close("]"),
    ]);
    input[1].mark_known();
    assert_eq!(find_title(&input), Some((4, 7)));
    let result = parse_title(&mut input);
    assert_eq!(one(&result), Some((ElementKind::Title, "Show Name", 4)));
}

#[test]
fn no_title() {
    let mut input = tokens(vec![open("["), word("a"), close("]")]);
    assert_eq!(find_title(&input), None);
    assert!(parse_title(&mut input).is_none());
    let mut input = tokens(Vec::new());
    assert!(parse_title(&mut input).is_none());
    let mut input = tokens(vec![delimiter(" "), delimiter("-")]);
    assert!(parse_title(&mut input).is_none());
    assert!(claimed(&input).is_empty());
}

#[test]
fn title_rewinds_over_brackets_at_its_end() {
    // An end that lies before the beginning is no title.
    let input = tokens(vec![open("["), word("x"), close("]"), word("a"), close("]")]);
    assert_eq!(find_title(&input), None);
}

#[test]
fn episode_title_of_free_text() {
    let mut input = tokens(vec![
        word("Show"),
        delimiter(" "),
        number("01"),
        delimiter(" "),
        word("The"),
        delimiter(" "),
        word("Beginning"),
        delimiter(" "),
        word("720p"),
    ]);
    for index in [0, 2, 8] {
        input[index].mark_known();
    }
    assert_eq!(find_episode_title(&input), Some((4, 8)));
    let result = parse_episode_title(&mut input);
    assert_eq!(one(&result), Some((ElementKind::EpisodeTitle, "The Beginning", 4)));
    assert_eq!(claimed(&input), vec![0, 2, 4, 5, 6, 7, 8]);
}

#[test]
fn episode_title_in_corner_brackets() {
    let mut input = tokens(vec![
        word("Show"),
        open("「"),
        word("Hajimari"),
        close("」"),
    ]);
    input[0].mark_known();
    assert_eq!(find_episode_title(&input), Some((2, 3)));
    let result = parse_episode_title(&mut input);
    assert_eq!(one(&result), Some((ElementKind::EpisodeTitle, "Hajimari", 2)));
    // With a claimed token inside, the brackets hold no episode title.
    let mut input = tokens(vec![open("「"), word("a"), delimiter(" "), close("」")]);
    input[1].mark_known();
    input[2].mark_known();
    assert_eq!(find_episode_title(&input), None);
    assert!(parse_episode_title(&mut input).is_none());
    let input = tokens(vec![open("「")]);
    assert_eq!(find_episode_title(&input), None);
}

#[test]
fn release_group_in_brackets() {
    let mut input = tokens(vec![
        open("["),
        word("720p"),
        close("]"),
        open("["),
        word("Some"),
        delimiter("-"),
        word("Group"),
        close("]"),
        word("Show"),
    ]);
    input[1].mark_known();
    assert_eq!(get_last_index_for_release_group(&input, Some(4)), Some(7));
    assert_eq!(get_last_index_for_release_group(&input, None), None);
    assert_eq!(find_release_group(&input), Some((4, 7)));
    let result = parse_release_group(&mut input);
    assert_eq!(one(&result), Some((ElementKind::ReleaseGroup, "Some-Group", 4)));
    assert_eq!(claimed(&input), vec![1, 4, 5, 6]);
}

#[test]
fn release_group_skips_runs_with_claimed_tokens() {
    let mut input = tokens(vec![
        open("["),
        word("BD"),
        delimiter(" "),
        word("x"),
        close("]"),
        open("("),
        word("Group"),
        close("]"),
        close(")"),
    ]);
    input[1].mark_known();
    // The first unclaimed token in brackets is the delimiter; the run from
    // there holds nothing claimed.
    assert_eq!(find_release_group(&input), Some((2, 4)));
    input[3].mark_known();
    // Now it does, and the search moves on to the round brackets, where
    // only a round bracket closes the run.
    assert_eq!(find_release_group(&input), Some((6, 8)));
}

#[test]
fn release_group_without_closing_bracket() {
    let input = tokens(vec![open("["), word("Group"), delimiter(" "), word("x")]);
    assert_eq!(find_release_group(&input), Some((1, 4)));
}

#[test]
fn no_release_group() {
    let mut input = tokens(vec![word("Show"), delimiter(" "), word("Name")]);
    assert_eq!(find_release_group(&input), None);
    assert!(parse_release_group(&mut input).is_none());
    let mut input = tokens(vec![delimiter("-"), word("Group")]);
    input[1].mark_known();
    assert_eq!(find_release_group(&input), None);
    let input = tokens(vec![word("Group")]);
    assert_eq!(find_release_group(&input), None);
    let input = tokens(vec![word("a"), delimiter("_"), word("Group")]);
    assert_eq!(find_release_group(&input), None);
}

// --- order ------------------------------------------------------------

#[test]
fn sorting_is_stable() {
    let element = |kind, value: &str, position| Element { kind, value: value.to_string(), position };
    let sorted = sort_elements(vec![
        element(ElementKind::FileExtension, "mkv", 9),
        element(ElementKind::Season, "01", 3),
        element(ElementKind::Episode, "02", 3),
        element(ElementKind::Title, "Show", 0),
        element(ElementKind::ReleaseVersion, "2", 3),
        element(ElementKind::Year, "1999", 5),
    ]);
    assert_eq!(
        found(&sorted),
        vec![
            (ElementKind::Title, "Show", 0),
            (ElementKind::Season, "01", 3),
            (ElementKind::Episode, "02", 3),
            (ElementKind::ReleaseVersion, "2", 3),
            (ElementKind::Year, "1999", 5),
            (ElementKind::FileExtension, "mkv", 9),
        ]
    );
    assert!(sort_elements(Vec::new()).is_empty());
}

#[test]
fn default_options_switch_everything_on() {
    let options = Options::default();
    assert_eq!(options, Options::new());
    assert!(options.parse_file_extension());
    assert!(options.parse_file_checksum());
    assert!(options.parse_video_resolution());
    assert!(options.parse_date());
    assert!(options.parse_year());
    assert!(options.parse_season());
    assert!(options.parse_episode());
    assert!(options.parse_episode_title());
    assert!(options.parse_title());
    assert!(options.parse_release_group());
}

#[test]
fn taking_a_resolution_beyond_the_tokens() {
    let mut input = tokens(vec![word("a")]);
    let mut results = Vec::new();
    assert!(!take_resolution(&mut input, 1, true, &mut results));
    assert!(results.is_empty());
    assert!(claimed(&input).is_empty());
}
