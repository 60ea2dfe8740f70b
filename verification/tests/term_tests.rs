use memoq::terms::{count_ngrams, is_stop_word, term_stats, tokenize};

#[test]
fn tokenize_strips_punctuation() {
    let tokens = tokenize("Hello, world! This is a test.");
    assert!(tokens.contains(&"hello".to_string()));
    assert!(tokens.contains(&"world".to_string()));
    // stop words removed from scoring but still tokenised
    assert!(tokens.contains(&"test".to_string()));
}

fn terms_of(text: &str) -> Vec<String> {
    term_stats(text).into_iter().map(|s| s.term).collect()
}

#[test]
fn single_word_terms_are_candidates() {
    let text = "photosynthesis photosynthesis photosynthesis chlorophyll chlorophyll photosynthesis";
    let terms = terms_of(text);
    assert!(terms.contains(&"photosynthesis".to_string()));
    assert!(terms.contains(&"chlorophyll".to_string()));
}

#[test]
fn bigram_terms_are_candidates() {
    let text = "machine learning machine learning machine learning deep learning deep learning";
    let terms = terms_of(text);
    assert!(terms.contains(&"machine learning".to_string()), "got {:?}", terms);
}

#[test]
fn stop_words_never_become_candidates() {
    let terms = terms_of("the the the the the a a a a and and and");
    assert!(terms.is_empty(), "got {:?}", terms);
}

#[test]
fn empty_text_has_no_candidates() {
    assert!(term_stats("").is_empty());
}

#[test]
fn single_occurrences_are_dropped() {
    let terms = terms_of("hapax legomenon this word only once unique_term alpha alpha alpha");
    assert!(!terms.contains(&"hapax".to_string()));
    assert!(terms.contains(&"alpha".to_string()));
}

#[test]
fn every_candidate_is_frequent() {
    for s in term_stats("neural network neural network deep neural network deep learning") {
        assert!(s.frequency >= 2, "{} occurs {} times", s.term, s.frequency);
    }
}

#[test]
fn repeated_bigram_counts_and_penalties() {
    let text = vec!["deep learning"; 10].join(" ");
    let stats = term_stats(&text);
    let bigram = stats.iter().find(|s| s.term == "deep learning").unwrap();
    assert_eq!(bigram.frequency, 10);
    assert_eq!(bigram.words, 2);
}

#[test]
fn stop_word_list() {
    assert!(is_stop_word("the"));
    assert!(is_stop_word("and"));
    assert!(!is_stop_word("network"));
}

#[test]
fn ngram_counts_in_first_appearance_order() {
    let tokens: Vec<String> = ["deep", "learning", "deep", "learning", "the", "deep"]
        .iter()
        .map(|s| s.to_string())
        .collect();
    let bigrams = count_ngrams(&tokens, 2);
    assert_eq!(
        bigrams,
        vec![("deep learning".to_string(), 2), ("learning deep".to_string(), 1)]
    );
    let unigrams = count_ngrams(&tokens, 1);
    assert_eq!(
        unigrams,
        vec![("deep".to_string(), 3), ("learning".to_string(), 2)]
    );
}
