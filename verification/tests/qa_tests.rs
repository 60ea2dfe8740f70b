use memoq::qa::{
    check_number_mismatch, check_source_equals_target, check_tag_mismatch, check_untranslated,
    extract_numbers, extract_tags, run_checks,
};

#[test]
fn test_extract_tags_basic() {
    assert_eq!(extract_tags("Hello <b>world</b>"), vec!["<b>", "</b>"]);
}

#[test]
fn test_extract_tags_empty() {
    assert_eq!(extract_tags("Hello world"), Vec::<String>::new());
}

#[test]
fn test_extract_numbers_basic() {
    let nums = extract_numbers("There are 3 items");
    assert!(nums.contains("3"));
}

#[test]
fn test_extract_numbers_decimal() {
    let nums = extract_numbers("Price: 1234.56");
    assert!(nums.contains("1234.56"));
}

#[test]
fn test_tag_mismatch() {
    let issue = check_tag_mismatch("s1", "Hello <b>world</b>", "안녕 <b>세계");
    assert!(issue.is_some());
    assert_eq!(issue.unwrap().check_type, "TagMismatch");
}

#[test]
fn test_tag_match_no_issue() {
    let issue = check_tag_mismatch("s2", "Hello <b>world</b>", "안녕 <b>세계</b>");
    assert!(issue.is_none());
}

#[test]
fn test_number_mismatch() {
    let issue = check_number_mismatch("s3", "3 items", "4개 항목");
    assert!(issue.is_some());
    assert_eq!(issue.unwrap().check_type, "NumberMismatch");
}

#[test]
fn test_number_mismatch_skips_empty_target() {
    let issue = check_number_mismatch("s4", "3 items", "");
    assert!(issue.is_none());
}

#[test]
fn test_untranslated_empty() {
    let issue = check_untranslated("s5", "", "untranslated");
    assert!(issue.is_some());
}

#[test]
fn test_untranslated_status() {
    let issue = check_untranslated("s6", "번역됨", "untranslated");
    assert!(issue.is_some());
}

#[test]
fn test_translated_no_untranslated_issue() {
    let issue = check_untranslated("s7", "번역됨", "translated");
    assert!(issue.is_none());
}

#[test]
fn test_source_equals_target() {
    let issue = check_source_equals_target("s8", "Hello", "Hello");
    assert!(issue.is_some());
    assert_eq!(issue.unwrap().check_type, "SourceEqualsTarget");
}

#[test]
fn test_source_not_equals_target() {
    let issue = check_source_equals_target("s9", "Hello", "안녕");
    assert!(issue.is_none());
}

#[test]
fn tag_mismatch_message_lists_both_sides() {
    let issue = check_tag_mismatch("s1", "<b>x</b>", "<i>x</i>").unwrap();
    assert_eq!(issue.severity, "Error");
    assert_eq!(
        issue.message,
        "태그 불일치: 소스 [\"<b>\", \"</b>\"] ≠ 타겟 [\"<i>\", \"</i>\"]"
    );
}

#[test]
fn a_new_bracket_restarts_the_tag() {
    assert_eq!(extract_tags("a < b and <i>"), vec!["<i>"]);
    assert_eq!(extract_tags("x > y"), Vec::<String>::new());
}

#[test]
fn numbers_drop_trailing_separators() {
    let nums = extract_numbers("Total: 1,000. Then 7.");
    assert!(nums.contains("1,000"));
    assert!(nums.contains("7"));
    assert!(!nums.contains("1,000."));
    assert_eq!(nums.len(), 2);
}

#[test]
fn number_mismatch_message_sorts_missing_and_extra() {
    let issue = check_number_mismatch("s", "10 and 2", "2 and 30").unwrap();
    assert_eq!(issue.severity, "Warning");
    assert_eq!(
        issue.message,
        "숫자 불일치 — 소스에만 있음: [\"10\"], 타겟에만 있음: [\"30\"]"
    );
}

#[test]
fn same_numbers_in_other_order_pass() {
    assert!(check_number_mismatch("s", "1 then 2", "2 then 1").is_none());
}

#[test]
fn source_equals_target_ignores_outer_whitespace() {
    assert!(check_source_equals_target("s", " Hello ", "Hello").is_some());
    assert!(check_source_equals_target("s", "", "").is_none());
}

#[test]
fn run_checks_reports_every_rule_in_order() {
    let segments = vec![
        (
            "a".to_string(),
            "Hello <b>3</b>".to_string(),
            "Hello <b>3</b>".to_string(),
            "translated".to_string(),
        ),
        ("b".to_string(), "5 apples".to_string(), "".to_string(), "untranslated".to_string()),
        ("c".to_string(), "Buy now".to_string(), "Jetzt billig kaufen".to_string(), "translated".to_string()),
    ];
    let forbidden = vec!["billig".to_string()];
    let issues = run_checks(&segments, &forbidden);
    let kinds: Vec<(String, String)> = issues
        .iter()
        .map(|i| (i.segment_id.clone(), i.check_type.clone()))
        .collect();
    assert_eq!(
        kinds,
        vec![
            ("a".to_string(), "SourceEqualsTarget".to_string()),
            ("b".to_string(), "Untranslated".to_string()),
            ("c".to_string(), "ForbiddenTerm".to_string()),
        ]
    );
}

#[test]
fn identical_text_has_no_tag_or_number_issue() {
    let text = "Call <b>555</b> at 9.30, or 10,5";
    assert!(check_tag_mismatch("s", text, text).is_none());
    assert!(check_number_mismatch("s", text, text).is_none());
    assert!(check_source_equals_target("s", "", "   ").is_none());
    assert!(check_untranslated("s", "   ", "translated").is_some());
}
