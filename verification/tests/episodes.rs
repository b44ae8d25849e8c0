//! The search for episode numbers, recognizer by recognizer.

use anitomy::element::{Element, ElementKind};
use anitomy::keyword::{Keyword, KeywordKind};
use anitomy::parser::episode::{
    parse_episode, parse_multi_episode_range, parse_number_in_number_episode,
    parse_single_episode, read_number_sign, read_prefixed, read_season_episode,
};
use anitomy::token::{Token, TokenCategory};

struct Piece {
    text: &'static str,
    category: TokenCategory,
    keyword: Option<Keyword>,
}

fn word(text: &'static str) -> Piece {
    Piece { text, category: TokenCategory::Word, keyword: None }
}

fn number(text: &'static str) -> Piece {
    Piece { text, category: TokenCategory::Number, keyword: None }
}

fn delimiter(text: &'static str) -> Piece {
    Piece { text, category: TokenCategory::Delimiter, keyword: None }
}

fn open(text: &'static str) -> Piece {
    Piece { text, category: TokenCategory::OpenBracket, keyword: None }
}

fn close(text: &'static str) -> Piece {
    Piece { text, category: TokenCategory::ClosedBracket, keyword: None }
}

fn keyword(text: &'static str, kind: KeywordKind) -> Piece {
    Piece { text, category: TokenCategory::Word, keyword: Some(Keyword::new(kind)) }
}

fn tokens(pieces: Vec<Piece>) -> Vec<Token> {
    let mut depth = 0usize;
    let mut out = Vec::new();
    for (position, piece) in pieces.into_iter().enumerate() {
        if piece.category == TokenCategory::ClosedBracket && depth > 0 {
            depth -= 1;
        }
        out.push(Token::new(piece.text, position, piece.category, piece.keyword, depth > 0));
        if piece.category == TokenCategory::OpenBracket {
            depth += 1;
        }
    }
    out
}

fn found(results: &[Element]) -> Vec<(ElementKind, &str, usize)> {
    results.iter().map(|e| (e.kind, e.value.as_str(), e.position)).collect()
}

fn claimed(tokens: &[Token]) -> Vec<usize> {
    tokens.iter().enumerate().filter(|(_, t)| t.is_identified()).map(|(i, _)| i).collect()
}

/// Runs the search for an episode and returns what it found and claimed.
fn search(pieces: Vec<Piece>, kind: ElementKind) -> (Vec<Element>, Vec<usize>) {
    let mut input = tokens(pieces);
    let mut results = Vec::new();
    parse_episode(&mut input, &mut results, kind);
    let claims = claimed(&input);
    (results, claims)
}

fn groups(texts: &[Option<&str>]) -> Option<Vec<Option<String>>> {
    Some(texts.iter().map(|g| g.map(|s| s.to_string())).collect())
}

#[test]
fn single_episode_forms() {
    assert_eq!(parse_single_episode("01"), Some(("01", "")));
    assert_eq!(parse_single_episode("1234"), Some(("1234", "")));
    assert_eq!(parse_single_episode("01v2"), Some(("01", "2")));
    assert_eq!(parse_single_episode("01V2"), Some(("01", "2")));
    assert_eq!(parse_single_episode(""), None);
    assert_eq!(parse_single_episode("12345"), None);
    assert_eq!(parse_single_episode("v2"), None);
    assert_eq!(parse_single_episode("01v"), None);
    assert_eq!(parse_single_episode("01v22"), None);
    assert_eq!(parse_single_episode("01va"), None);
    assert_eq!(parse_single_episode("0a"), None);
    assert_eq!(parse_single_episode("01v2v3"), None);
}

#[test]
fn multi_episode_range_is_read_and_claimed() {
    let mut input = tokens(vec![word("Show"), delimiter(" "), word("01-03")]);
    let mut results = Vec::new();
    assert!(parse_multi_episode_range(&mut input, 2, &mut results, ElementKind::Episode));
    assert_eq!(
        found(&results),
        vec![(ElementKind::Episode, "01", 2), (ElementKind::Episode, "03", 2)]
    );
    assert_eq!(claimed(&input), vec![2]);
}

#[test]
fn multi_episode_range_with_versions() {
    let mut input = tokens(vec![word("05v2&06v3")]);
    let mut results = Vec::new();
    assert!(parse_multi_episode_range(&mut input, 0, &mut results, ElementKind::Volume));
    assert_eq!(
        found(&results),
        vec![
            (ElementKind::Volume, "05", 0),
            (ElementKind::ReleaseVersion, "2", 0),
            (ElementKind::Volume, "06", 0),
            (ElementKind::ReleaseVersion, "3", 0),
        ]
    );
}

#[test]
fn multi_episode_range_must_rise() {
    for text in ["03-01", "02-02", "01", "01-", "-02", "01-0x", "a-b", "01-02-03"] {
        let mut input = vec![Token::new(text, 0, TokenCategory::Word, None, false)];
        let mut results = Vec::new();
        assert!(!parse_multi_episode_range(&mut input, 0, &mut results, ElementKind::Episode));
        assert!(results.is_empty());
        assert!(!input[0].is_identified());
    }
}

#[test]
fn multi_episode_range_separators() {
    for text in ["01-02", "01~02", "01&02", "01+02"] {
        let mut input = vec![Token::new(text, 0, TokenCategory::Word, None, false)];
        let mut results = Vec::new();
        assert!(parse_multi_episode_range(&mut input, 0, &mut results, ElementKind::Episode));
        assert_eq!(results.len(), 2);
    }
}

#[test]
fn multi_episode_range_beyond_the_tokens() {
    let mut input = tokens(vec![word("01-03")]);
    let mut results = Vec::new();
    assert!(!parse_multi_episode_range(&mut input, 1, &mut results, ElementKind::Episode));
    assert!(results.is_empty());
}

#[test]
fn number_of_number() {
    let mut input = tokens(vec![
        number("01"),
        delimiter(" "),
        word("of"),
        delimiter(" "),
        number("24"),
    ]);
    let element = parse_number_in_number_episode(&mut input).unwrap();
    assert_eq!(element.kind, ElementKind::Episode);
    assert_eq!(element.value, "01");
    assert_eq!(element.position, 0);
    // The total after "of" stays unclaimed.
    assert_eq!(claimed(&input), vec![0, 2]);
}

#[test]
fn number_tilde_number() {
    let mut input = tokens(vec![
        number("08"),
        delimiter(" "),
        delimiter("~"),
        delimiter(" "),
        number("10"),
    ]);
    let element = parse_number_in_number_episode(&mut input).unwrap();
    assert_eq!(element.value, "08");
    assert_eq!(claimed(&input), vec![0, 2, 4]);
}

#[test]
fn number_before_a_word_is_not_joined() {
    let mut input = tokens(vec![
        number("08"),
        delimiter(" "),
        word("and"),
        delimiter(" "),
        number("10"),
    ]);
    assert!(parse_number_in_number_episode(&mut input).is_none());
    assert!(claimed(&input).is_empty());
    let mut input = tokens(vec![number("08"), delimiter(" "), word("of"), delimiter(" "), word("x")]);
    assert!(parse_number_in_number_episode(&mut input).is_none());
    let mut input = tokens(vec![number("08"), delimiter(" "), word("of")]);
    assert!(parse_number_in_number_episode(&mut input).is_none());
}

#[test]
fn episode_after_keyword() {
    let (results, claims) = search(
        vec![keyword("Episode", KeywordKind::Episode), delimiter(" "), number("5")],
        ElementKind::Episode,
    );
    assert_eq!(found(&results), vec![(ElementKind::Episode, "5", 2)]);
    assert_eq!(claims, vec![0, 2]);
}

#[test]
fn episode_range_after_keyword() {
    let (results, claims) = search(
        vec![keyword("Ep", KeywordKind::Episode), delimiter("."), word("01-02")],
        ElementKind::EpisodeAlt,
    );
    assert_eq!(
        found(&results),
        vec![(ElementKind::EpisodeAlt, "01", 2), (ElementKind::EpisodeAlt, "02", 2)]
    );
    assert_eq!(claims, vec![0, 2]);
}

#[test]
fn episode_with_prefix() {
    let (results, claims) = search(vec![word("Show"), delimiter(" "), word("EP12v2")], ElementKind::Episode);
    assert_eq!(
        found(&results),
        vec![(ElementKind::Episode, "12", 2), (ElementKind::ReleaseVersion, "2", 2)]
    );
    assert_eq!(claims, vec![2]);
    let (results, _) = search(vec![word("e07.5")], ElementKind::Episode);
    assert_eq!(found(&results), vec![(ElementKind::Episode, "07.5", 0)]);
    let (results, _) = search(vec![word("Eps3")], ElementKind::Episode);
    assert_eq!(found(&results), vec![(ElementKind::Episode, "3", 0)]);
    let (results, _) = search(vec![word("EP12345")], ElementKind::Episode);
    assert!(results.is_empty());
}

#[test]
fn number_sign_episodes() {
    let (results, claims) = search(vec![word("Show"), delimiter(" "), word("#12")], ElementKind::Episode);
    assert_eq!(found(&results), vec![(ElementKind::Episode, "12", 2)]);
    assert_eq!(claims, vec![2]);
    let (results, _) = search(vec![word("Show"), delimiter(" "), word("＃12-15")], ElementKind::Episode);
    assert_eq!(
        found(&results),
        vec![(ElementKind::Episode, "12", 2), (ElementKind::Episode, "15", 2)]
    );
    let (results, _) = search(vec![word("#03v2")], ElementKind::Episode);
    assert_eq!(
        found(&results),
        vec![(ElementKind::Episode, "03", 0), (ElementKind::ReleaseVersion, "2", 0)]
    );
}

#[test]
fn japanese_counter() {
    let (results, claims) = search(vec![word("第12話")], ElementKind::Episode);
    assert_eq!(found(&results), vec![(ElementKind::Episode, "12", 0)]);
    assert_eq!(claims, vec![0]);
    let (results, _) = search(vec![word("第十話")], ElementKind::Episode);
    assert_eq!(found(&results), vec![(ElementKind::Episode, "十", 0)]);
    let (results, _) = search(vec![word("7話")], ElementKind::Episode);
    assert_eq!(found(&results), vec![(ElementKind::Episode, "7", 0)]);
    let (results, _) = search(vec![word("第話")], ElementKind::Episode);
    assert!(results.is_empty());
    let (results, _) = search(vec![word("第12345話")], ElementKind::Episode);
    assert!(results.is_empty());
}

#[test]
fn season_and_episode_in_one_token() {
    let (results, claims) = search(vec![word("S01E02"), delimiter(" "), word("x")], ElementKind::Episode);
    assert_eq!(
        found(&results),
        vec![(ElementKind::Season, "01", 0), (ElementKind::Episode, "02", 0)]
    );
    assert_eq!(claims, vec![0]);
    let (results, _) = search(vec![word("2x05")], ElementKind::Episode);
    assert_eq!(
        found(&results),
        vec![(ElementKind::Season, "2", 0), (ElementKind::Episode, "05", 0)]
    );
    let (results, _) = search(vec![word("S01-02E03-04v2")], ElementKind::Episode);
    assert_eq!(
        found(&results),
        vec![
            (ElementKind::Season, "01", 0),
            (ElementKind::Season, "02", 0),
            (ElementKind::Episode, "03", 0),
            (ElementKind::Episode, "04", 0),
            (ElementKind::ReleaseVersion, "2", 0),
        ]
    );
}

#[test]
fn season_zero_is_no_season() {
    let (results, claims) = search(vec![word("S00E05")], ElementKind::EpisodeAlt);
    assert!(results.is_empty());
    assert!(claims.is_empty());
    let (results, _) = search(vec![word("0x05")], ElementKind::EpisodeAlt);
    assert!(results.is_empty());
}

#[test]
fn number_after_type_keyword() {
    let (results, claims) = search(
        vec![keyword("OVA", KeywordKind::Type), delimiter(" "), number("2")],
        ElementKind::Episode,
    );
    assert_eq!(found(&results), vec![(ElementKind::Episode, "2", 2)]);
    assert_eq!(claims, vec![2]);
    let (results, _) = search(
        vec![keyword("Movie", KeywordKind::Type), delimiter(" "), number("2")],
        ElementKind::EpisodeAlt,
    );
    assert!(results.is_empty());
}

#[test]
fn isolated_pair_of_numbers() {
    let (results, claims) = search(
        vec![open("["), number("01"), close("]"), number("02"), close("]")],
        ElementKind::Episode,
    );
    assert_eq!(
        found(&results),
        vec![(ElementKind::EpisodeAlt, "02", 3), (ElementKind::Episode, "01", 1)]
    );
    assert_eq!(claims, vec![1, 3]);
    let (results, _) = search(
        vec![open("("), number("13"), close(")"), number("01"), close(")")],
        ElementKind::Episode,
    );
    assert_eq!(
        found(&results),
        vec![(ElementKind::Episode, "01", 3), (ElementKind::EpisodeAlt, "13", 1)]
    );
}

#[test]
fn number_after_dash() {
    let (results, claims) = search(
        vec![word("Show"), delimiter(" "), delimiter("-"), delimiter(" "), number("07")],
        ElementKind::Episode,
    );
    assert_eq!(found(&results), vec![(ElementKind::Episode, "07", 4)]);
    assert_eq!(claims, vec![2, 4]);
    let (results, _) = search(
        vec![word("Show"), delimiter("\u{2014}"), number("07"), delimiter(" "), word("x")],
        ElementKind::Episode,
    );
    assert_eq!(found(&results), vec![(ElementKind::Episode, "07", 2)]);
}

#[test]
fn half_episode() {
    let (results, claims) = search(vec![word("Show"), delimiter(" "), word("07.5"), delimiter(" "), word("x")], ElementKind::Episode);
    assert_eq!(found(&results), vec![(ElementKind::Episode, "07.5", 2)]);
    assert_eq!(claims, vec![2]);
    let (results, _) = search(vec![word("07.6")], ElementKind::Episode);
    assert!(results.is_empty());
}

#[test]
fn number_alone_in_brackets() {
    let (results, claims) = search(
        vec![word("Show"), open("["), number("12"), close("]"), word("x")],
        ElementKind::Episode,
    );
    assert_eq!(found(&results), vec![(ElementKind::Episode, "12", 2)]);
    assert_eq!(claims, vec![2]);
}

#[test]
fn partial_episode() {
    let (results, claims) = search(vec![word("Show"), delimiter(" "), word("12a"), delimiter(" "), word("x")], ElementKind::Episode);
    assert_eq!(found(&results), vec![(ElementKind::Episode, "12a", 2)]);
    assert_eq!(claims, vec![2]);
    let (results, _) = search(vec![word("12d")], ElementKind::Episode);
    assert!(results.is_empty());
    let (results, _) = search(vec![word("C")], ElementKind::Episode);
    assert!(results.is_empty());
}

#[test]
fn partial_episode_exception() {
    let (results, claims) = search(vec![word("Ver1"), delimiter(" "), word("1a")], ElementKind::Episode);
    assert!(results.is_empty());
    assert!(claims.is_empty());
    let (results, _) = search(vec![word("Ver2"), delimiter(" "), word("1a")], ElementKind::Episode);
    assert_eq!(found(&results), vec![(ElementKind::Episode, "1a", 2)]);
    let (results, _) = search(vec![word("Ver1"), delimiter(" "), word("2a")], ElementKind::Episode);
    assert_eq!(found(&results), vec![(ElementKind::Episode, "2a", 2)]);
}

#[test]
fn last_resort_number() {
    let (results, claims) = search(vec![word("Show"), delimiter(" "), number("12")], ElementKind::Episode);
    assert_eq!(found(&results), vec![(ElementKind::Episode, "12", 2)]);
    assert_eq!(claims, vec![2]);
}

#[test]
fn last_resort_guards() {
    for guard in ["Movie", "movie", "PART", "Cour", "no"] {
        let (results, _) = search(vec![word("Show"), delimiter(" "), word(guard), delimiter(" "), number("2")], ElementKind::Episode);
        assert!(results.is_empty(), "{guard}");
    }
    // A word that only begins like a guard word is none.
    let (results, _) = search(vec![word("Show"), delimiter(" "), word("Nobody"), delimiter(" "), number("2")], ElementKind::Episode);
    assert_eq!(found(&results), vec![(ElementKind::Episode, "2", 4)]);
    // The first text outside brackets is not an episode.
    let (results, _) = search(vec![number("12"), delimiter(" "), word("Show")], ElementKind::Episode);
    assert!(results.is_empty());
    // Nor is a number between two free tokens.
    let (results, _) = search(
        vec![word("Show"), delimiter(" "), number("12"), delimiter(" "), word("Name")],
        ElementKind::Episode,
    );
    assert!(results.is_empty());
    // Nor a number in brackets, among others.
    let (results, _) = search(
        vec![word("Show"), open("["), word("x"), number("12"), close("]")],
        ElementKind::Episode,
    );
    assert!(results.is_empty());
}

#[test]
fn second_pass_does_not_guess() {
    let pieces = || vec![word("Show"), delimiter(" "), number("12")];
    let (results, claims) = search(pieces(), ElementKind::EpisodeAlt);
    assert!(results.is_empty());
    assert!(claims.is_empty());
    let (results, _) = search(pieces(), ElementKind::Episode);
    assert_eq!(results.len(), 1);
}

#[test]
fn more_specific_recognizer_wins() {
    // The version form comes before the bare range.
    let (results, _) = search(vec![word("01-03"), delimiter(" "), word("05v2")], ElementKind::Episode);
    assert_eq!(
        found(&results),
        vec![(ElementKind::Episode, "05", 2), (ElementKind::ReleaseVersion, "2", 2)]
    );
    // Claimed tokens are passed over.
    let mut input = tokens(vec![word("05v2"), delimiter(" "), word("06v3")]);
    input[0].mark_known();
    let mut results = Vec::new();
    parse_episode(&mut input, &mut results, ElementKind::Episode);
    assert_eq!(
        found(&results),
        vec![(ElementKind::Episode, "06", 2), (ElementKind::ReleaseVersion, "3", 2)]
    );
}

#[test]
fn nothing_found_nothing_changed() {
    let (results, claims) = search(vec![word("Show"), delimiter(" "), word("Name")], ElementKind::Episode);
    assert!(results.is_empty());
    assert!(claims.is_empty());
    let (results, claims) = search(Vec::new(), ElementKind::Episode);
    assert!(results.is_empty());
    assert!(claims.is_empty());
}

#[test]
fn prefixed_groups() {
    let token = Token::new("EP12v2", 7, TokenCategory::Word, None, false);
    let elements =
        read_prefixed(groups(&[Some("EP12v2"), Some("12"), Some("2")]), ElementKind::Episode, &token)
            .unwrap();
    assert_eq!(
        found(&elements),
        vec![(ElementKind::Episode, "12", 7), (ElementKind::ReleaseVersion, "2", 7)]
    );
    let elements =
        read_prefixed(groups(&[Some("EP12"), Some("12"), None]), ElementKind::EpisodeAlt, &token)
            .unwrap();
    assert_eq!(found(&elements), vec![(ElementKind::EpisodeAlt, "12", 7)]);
    assert!(read_prefixed(None, ElementKind::Episode, &token).is_none());
    assert!(read_prefixed(groups(&[Some("EP")]), ElementKind::Episode, &token).is_none());
    assert!(read_prefixed(groups(&[Some("EP"), None, Some("2")]), ElementKind::Episode, &token).is_none());
}

#[test]
fn number_sign_groups() {
    let token = Token::new("#12-15v3", 3, TokenCategory::Word, None, false);
    let elements = read_number_sign(
        groups(&[Some("#12-15v3"), Some("12"), Some("15"), Some("3")]),
        ElementKind::Episode,
        &token,
    )
    .unwrap();
    assert_eq!(
        found(&elements),
        vec![
            (ElementKind::Episode, "12", 3),
            (ElementKind::Episode, "15", 3),
            (ElementKind::ReleaseVersion, "3", 3),
        ]
    );
    let elements =
        read_number_sign(groups(&[Some("#12"), Some("12"), None, None]), ElementKind::Episode, &token)
            .unwrap();
    assert_eq!(found(&elements), vec![(ElementKind::Episode, "12", 3)]);
    assert!(read_number_sign(None, ElementKind::Episode, &token).is_none());
    assert!(read_number_sign(groups(&[Some("#"), None]), ElementKind::Episode, &token).is_none());
}

#[test]
fn season_episode_groups() {
    let token = Token::new("S01E02", 0, TokenCategory::Word, None, false);
    let elements = read_season_episode(
        groups(&[Some("S01E02"), Some("01"), None, Some("02"), None, None]),
        ElementKind::Episode,
        &token,
    )
    .unwrap();
    assert_eq!(
        found(&elements),
        vec![(ElementKind::Season, "01", 0), (ElementKind::Episode, "02", 0)]
    );
    // A season that is zero, or no number at all, is none.
    for season in ["0", "00", "", "x", "256"] {
        assert!(read_season_episode(
            groups(&[Some("S"), Some(season), None, Some("02"), None, None]),
            ElementKind::Episode,
            &token,
        )
        .is_none());
    }
    assert!(read_season_episode(
        groups(&[Some("S"), Some("255"), None, Some("02"), None, None]),
        ElementKind::Episode,
        &token,
    )
    .is_some());
    assert!(read_season_episode(
        groups(&[Some("S"), Some("01"), None, None, None, None]),
        ElementKind::Episode,
        &token,
    )
    .is_none());
    assert!(read_season_episode(None, ElementKind::Episode, &token).is_none());
}
