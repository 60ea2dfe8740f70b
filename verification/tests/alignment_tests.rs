use memoq::alignment::{dot_product, squares, tokenize, trace_back, Step};

fn s(x: &str) -> String {
    x.to_string()
}

#[test]
fn sentence_tokens_are_counted() {
    let t = tokenize("The quick, brown fox -- the FOX!");
    assert_eq!(t, vec![(s("the"), 2), (s("quick"), 1), (s("brown"), 1), (s("fox"), 2)]);
    assert!(tokenize("   ").is_empty());
    assert_eq!(tokenize("2024: 42 items"), vec![(s("2024"), 1), (s("42"), 1), (s("items"), 1)]);
}

#[test]
fn integer_parts_of_cosine() {
    let a = tokenize("hello world hello");
    let b = tokenize("hello there");
    assert_eq!(dot_product(&a, &b), 2);
    assert_eq!(squares(&a), 5);
    assert_eq!(squares(&b), 2);
    let c = tokenize("foo bar");
    assert_eq!(dot_product(&a, &c), 0);
}

#[test]
fn pairing_read_back_from_the_table() {
    // 2 sources, 3 targets: match (1,1), skip target 2, match (2,3)
    let m = Step::Match;
    let st = Step::SkipTarget;
    let ss = Step::SkipSource;
    let table = vec![
        vec![ss, ss, ss, ss],
        vec![ss, m, st, st],
        vec![ss, ss, m, m],
    ];
    let (pairs, us, ut) = trace_back(&table, 2, 3);
    assert_eq!(pairs, vec![(0, 0), (1, 2)]);
    assert_eq!((us, ut), (0, 1));
    let (none, us, ut) = trace_back(&vec![vec![ss, ss]], 0, 1);
    assert!(none.is_empty());
    assert_eq!((us, ut), (0, 1));
}
