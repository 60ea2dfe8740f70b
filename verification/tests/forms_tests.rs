use memoq::error::AppError;
use memoq::forms::{
    align_field, is_upload_field, join_sentences, require_upload, term_field, unreadable, upload_file_name, AlignField,
    AlignForm, TermField, TermForm,
};
use memoq::xliff::ParseError;

fn s(x: &str) -> String {
    x.to_string()
}

#[test]
fn alignment_form() {
    assert!(matches!(align_field("source_file"), AlignField::SourceFile));
    assert!(matches!(align_field("target_lang"), AlignField::TargetLang));
    assert!(matches!(align_field("other"), AlignField::Other));
    let mut f = AlignForm::new();
    f.set_source(None, vec![1, 2]);
    match AlignForm::new().finish() {
        Err(AppError::BadRequest(m)) => assert_eq!(m, "Missing 'source_file' field"),
        _ => panic!("expected a bad request"),
    }
    let mut g = AlignForm::new();
    g.set_source(None, vec![1]);
    match g.finish() {
        Err(AppError::BadRequest(m)) => assert_eq!(m, "Missing 'target_file' field"),
        _ => panic!("expected a bad request"),
    }
    f.set_target(Some(s("ko.txt")), vec![3]);
    let input = f.finish().ok().unwrap();
    assert_eq!((input.source.name.as_str(), input.target.name.as_str()), ("source.txt", "ko.txt"));
    assert_eq!((input.source_lang.as_str(), input.target_lang.as_str()), ("en", "ko"));
    assert_eq!(input.target.bytes, vec![3]);
}

#[test]
fn term_form() {
    assert!(matches!(term_field("max_candidates"), TermField::MaxCandidates));
    let mut f = TermForm::new();
    assert_eq!(f.max_candidates, 50);
    f.set_max_candidates("7");
    assert_eq!(f.max_candidates, 7);
    f.set_max_candidates("seven");
    assert_eq!(f.max_candidates, 50);
    assert!(matches!(TermForm::new().finish(), Err(AppError::BadRequest(m)) if m == "Missing 'source_file' field"));
    f.set_file(None, vec![]);
    assert_eq!(f.finish().ok().unwrap().name, "source.txt");
}

#[test]
fn joined_text_and_uploads() {
    assert_eq!(join_sentences(&vec![s("One."), s("Two."), s("Three.")]), "One. Two. Three.");
    assert_eq!(join_sentences(&vec![]), "");
    assert!(is_upload_field("file"));
    assert!(!is_upload_field("filename"));
    assert_eq!(upload_file_name(None), "upload");
    assert!(matches!(require_upload(false), Err(AppError::BadRequest(m)) if m == "No 'file' field in request"));
    assert!(matches!(unreadable(ParseError { message: s("bad") }), AppError::BadRequest(m) if m == "bad"));
}
