use rpgm_translation::language::{LanguageAggregator, LanguageGuess};
use rpgm_translation::matching::{
    all_matches, find_all_matches, find_match, first_match, MatchMode, MatchOptions, MatchResult,
};
use rpgm_translation::tokenize::{tokenize, Algorithm, TokenizeError};

fn toks(words: &[&str]) -> Vec<Vec<char>> {
    words.iter().map(|w| w.chars().collect()).collect()
}

fn guess(tag: &str, confidence: u32) -> Option<LanguageGuess> {
    Some(LanguageGuess { tag: tag.to_string(), confidence })
}

#[test]
fn words_split_on_spaces() {
    assert_eq!(tokenize("  Hello   big\tworld ", Algorithm::Words, true), Ok(toks(&["Hello", "big", "world"])));
    assert_eq!(tokenize("", Algorithm::Words, true), Ok(Vec::new()));
    assert_eq!(tokenize("これは\u{3000}テスト", Algorithm::Words, true), Ok(toks(&["これは", "テスト"])));
}

#[test]
fn case_folding_lowercases_first() {
    assert_eq!(tokenize("Hello WORLD", Algorithm::Words, false), Ok(toks(&["hello", "world"])));
    assert_eq!(tokenize("Hello WORLD", Algorithm::Words, true), Ok(toks(&["Hello", "WORLD"])));
}

#[test]
fn ngrams_slide_over_characters() {
    assert_eq!(tokenize("abcd", Algorithm::CharNgrams(2), true), Ok(toks(&["ab", "bc", "cd"])));
    assert_eq!(tokenize("ab", Algorithm::CharNgrams(2), true), Ok(toks(&["ab"])));
    assert_eq!(tokenize("", Algorithm::CharNgrams(3), true), Ok(Vec::new()));
}

#[test]
fn tokenizing_errors() {
    assert_eq!(tokenize("abc", Algorithm::CharNgrams(0), true), Err(TokenizeError::ZeroNgram));
    assert_eq!(tokenize("ab", Algorithm::CharNgrams(3), true), Err(TokenizeError::TooShort));
}

#[test]
fn exact_match_finds_first_run() {
    let hay = toks(&["a", "b", "c", "b", "c"]);
    let needle = toks(&["b", "c"]);
    assert_eq!(first_match(&hay, &needle, MatchMode::Exact, false), Some(MatchResult { start: 1, end: 3, score: 2 }));
    assert_eq!(
        all_matches(&hay, &needle, MatchMode::Exact, false),
        vec![MatchResult { start: 1, end: 3, score: 2 }, MatchResult { start: 3, end: 5, score: 2 }]
    );
    assert_eq!(first_match(&hay, &toks(&["c", "a"]), MatchMode::Exact, false), None);
    assert_eq!(first_match(&hay, &Vec::new(), MatchMode::Exact, false), None);
}

#[test]
fn permissive_accepts_prefixes() {
    let hay = toks(&["walking", "home"]);
    let needle = toks(&["walk"]);
    assert_eq!(first_match(&hay, &needle, MatchMode::Exact, false), None);
    assert_eq!(first_match(&hay, &needle, MatchMode::Exact, true), Some(MatchResult { start: 0, end: 1, score: 1 }));
}

#[test]
fn subsequence_allows_gaps() {
    let hay = toks(&["x", "a", "y", "b", "a", "b"]);
    let needle = toks(&["a", "b"]);
    assert_eq!(first_match(&hay, &needle, MatchMode::Subsequence, false), Some(MatchResult { start: 1, end: 4, score: 2 }));
    assert_eq!(
        all_matches(&hay, &needle, MatchMode::Subsequence, false),
        vec![MatchResult { start: 1, end: 4, score: 2 }, MatchResult { start: 4, end: 6, score: 2 }]
    );
    assert_eq!(first_match(&hay, &toks(&["b", "x"]), MatchMode::Subsequence, false), None);
}

#[test]
fn fuzzy_scores_overlap() {
    let hay = toks(&["the", "red", "cat", "sat"]);
    let needle = toks(&["the", "big", "cat"]);
    assert_eq!(first_match(&hay, &needle, MatchMode::Fuzzy(60), false), Some(MatchResult { start: 0, end: 3, score: 2 }));
    assert_eq!(first_match(&hay, &needle, MatchMode::Fuzzy(70), false), None);
    assert_eq!(first_match(&hay, &toks(&["dog"]), MatchMode::Fuzzy(0), false), None);
    let more = toks(&["the", "red", "cat"]);
    assert_eq!(first_match(&hay, &more, MatchMode::Fuzzy(100), false), Some(MatchResult { start: 0, end: 3, score: 3 }));
}

#[test]
fn source_miss_skips_translation() {
    let r = find_match("hello world", "absent", "bonjour", "bonjour", Algorithm::CharNgrams(3), true, MatchMode::Exact, false);
    assert_eq!(r, Ok(None));
    let r = find_match("hello world", "absent", "x", "bonjour", Algorithm::CharNgrams(3), true, MatchMode::Exact, false);
    assert_eq!(r, Ok(None));
}

#[test]
fn source_hit_searches_translation() {
    let r = find_match("Hello World", "world", "Bonjour Monde", "monde", Algorithm::Words, false, MatchMode::Exact, false);
    assert_eq!(
        r,
        Ok(Some((MatchResult { start: 1, end: 2, score: 1 }, Some(MatchResult { start: 1, end: 2, score: 1 }))))
    );
    let r = find_match("Hello World", "world", "Bonjour", "monde", Algorithm::Words, false, MatchMode::Exact, false);
    assert_eq!(r, Ok(Some((MatchResult { start: 1, end: 2, score: 1 }, None))));
    let r = find_match("hello", "hello", "x", "bonjour", Algorithm::CharNgrams(3), true, MatchMode::Exact, false);
    assert_eq!(r, Err(TokenizeError::TooShort));
}

#[test]
fn all_matches_with_separate_options() {
    let src = MatchOptions { mode: MatchMode::Exact, case_sensitive: true, permissive: false };
    let tr = MatchOptions { mode: MatchMode::Exact, case_sensitive: false, permissive: true };
    let r = find_all_matches("go go go", "go", "Aller ALLONS", "all", Algorithm::Words, src, tr);
    assert_eq!(
        r,
        Ok(Some((
            vec![
                MatchResult { start: 0, end: 1, score: 1 },
                MatchResult { start: 1, end: 2, score: 1 },
                MatchResult { start: 2, end: 3, score: 1 }
            ],
            vec![MatchResult { start: 0, end: 1, score: 1 }, MatchResult { start: 1, end: 2, score: 1 }]
        )))
    );
    let r = find_all_matches("go go", "Go", "aller", "aller", Algorithm::Words, src, tr);
    assert_eq!(r, Ok(None));
    let r = find_all_matches("go go", "Go", "x", "aller", Algorithm::CharNgrams(2), src, tr);
    assert_eq!(r, Ok(None));
}

#[test]
fn best_language_is_highest_total() {
    let mut agg = LanguageAggregator::new();
    agg.record(guess("en", 30));
    agg.record(guess("fr", 50));
    agg.record(None);
    agg.record(guess("en", 40));
    assert_eq!(agg.consume_best(), Some("en".to_string()));
}

#[test]
fn reading_the_best_empties_the_totals() {
    let mut agg = LanguageAggregator::new();
    agg.record(guess("ja", 10));
    assert_eq!(agg.consume_best(), Some("ja".to_string()));
    assert_eq!(agg.consume_best(), None);
    agg.record(guess("de", 1));
    assert_eq!(agg.consume_best(), Some("de".to_string()));
}

#[test]
fn no_guess_gives_no_signal() {
    let mut agg = LanguageAggregator::new();
    agg.record(None);
    assert_eq!(agg.consume_best(), None);
}

#[test]
fn equal_totals_give_a_consistent_winner() {
    let mut a = LanguageAggregator::new();
    a.record(guess("en", 5));
    a.record(guess("fr", 5));
    let mut b = LanguageAggregator::new();
    b.record(guess("en", 5));
    b.record(guess("fr", 5));
    let first = a.consume_best();
    assert!(first == Some("en".to_string()) || first == Some("fr".to_string()));
    assert_eq!(first, b.consume_best());
}

#[test]
fn totals_saturate() {
    let mut agg = LanguageAggregator::new();
    for _ in 0..3 {
        agg.record(guess("en", u32::MAX));
    }
    agg.record(guess("fr", 1));
    assert_eq!(agg.consume_best(), Some("en".to_string()));
}
