use memoq::tm::{default_limit, edit_distance, fuzzy_score, rank_matches, CreateTmRequest, FuzzyScore, TmSearchParams};

fn chars(s: &str) -> Vec<char> {
    s.chars().collect()
}

fn fraction(s: &FuzzyScore) -> (usize, usize) {
    match s {
        FuzzyScore::Identical => (0, 1),
        FuzzyScore::Disjoint => (1, 1),
        FuzzyScore::Partial { distance, length } => (*distance, *length),
    }
}

#[test]
fn edit_distance_known_values() {
    assert_eq!(edit_distance(&chars("kitten"), &chars("sitting")), 3);
    assert_eq!(edit_distance(&chars(""), &chars("abc")), 3);
    assert_eq!(edit_distance(&chars("abc"), &chars("")), 3);
    assert_eq!(edit_distance(&chars("flaw"), &chars("lawn")), 2);
    assert_eq!(edit_distance(&chars("안녕하세요"), &chars("안녕히 가세요")), 3);
}

#[test]
fn edit_distance_is_symmetric_and_zero_on_itself() {
    let a = chars("translation memory");
    let b = chars("translated memories");
    assert_eq!(edit_distance(&a, &b), edit_distance(&b, &a));
    assert_eq!(edit_distance(&a, &a), 0);
}

#[test]
fn fuzzy_score_cases() {
    assert!(matches!(fuzzy_score("Hello", "Hello"), FuzzyScore::Identical));
    assert!(matches!(fuzzy_score("", "Hello"), FuzzyScore::Disjoint));
    assert!(matches!(fuzzy_score("Hello", ""), FuzzyScore::Disjoint));
    assert_eq!(fraction(&fuzzy_score("Hello world", "Hello there")), (5, 11));
    assert_eq!(fraction(&fuzzy_score("abc", "abd")), (1, 3));
}

#[test]
fn ranking_keeps_half_or_better_best_first() {
    let sources: Vec<String> = [
        "Hello there",       // 5/11 miss: kept (score 6/11)
        "Hello world",       // identical
        "Completely other",  // far: dropped
        "Hello worlds",      // 1/12 miss
    ]
    .iter()
    .map(|s| s.to_string())
    .collect();
    let r = rank_matches("Hello world", &sources, 5);
    let order: Vec<usize> = r.iter().map(|(i, _)| *i).collect();
    assert_eq!(order, vec![1, 3, 0]);
    assert!(matches!(r[0].1, FuzzyScore::Identical));
}

#[test]
fn ranking_respects_the_limit_and_ties_keep_stored_order() {
    let sources: Vec<String> = ["abcd", "abce", "abcf", "abcd"].iter().map(|s| s.to_string()).collect();
    let r = rank_matches("abcx", &sources, 2);
    let order: Vec<usize> = r.iter().map(|(i, _)| *i).collect();
    assert_eq!(order, vec![0, 1]);
    let none = rank_matches("abcx", &sources, 0);
    assert!(none.is_empty());
}

#[test]
fn exact_stored_text_comes_first() {
    let sources: Vec<String> = ["Save the file", "Save the files", "Save file"].iter().map(|s| s.to_string()).collect();
    let r = rank_matches("Save the files", &sources, 1);
    assert_eq!(r.len(), 1);
    assert_eq!(r[0].0, 1);
    assert!(matches!(r[0].1, FuzzyScore::Identical));
}

#[test]
fn default_limit_is_five() {
    assert_eq!(default_limit(), 5);
}

#[test]
fn search_needs_text_and_both_languages() {
    let p = TmSearchParams {
        source: Some("x".to_string()),
        source_lang: Some("en".to_string()),
        target_lang: None,
        limit: 5,
    };
    assert!(!p.is_search());
    let q = TmSearchParams { target_lang: Some("ko".to_string()), ..p };
    assert!(q.is_search());
}

#[test]
fn memory_unit_needs_source_and_target() {
    let ok = CreateTmRequest {
        source: "a".to_string(),
        target: "b".to_string(),
        source_lang: "en".to_string(),
        target_lang: "ko".to_string(),
    };
    assert!(ok.validate().is_ok());
    let bad = CreateTmRequest { target: "  ".to_string(), ..ok };
    match bad.validate() {
        Err(memoq::error::AppError::BadRequest(m)) => assert_eq!(m, "source and target are required"),
        _ => panic!("expected a bad request"),
    }
}
