use memoq::error::AppError;
use memoq::records::{
    check_entry_delete, check_tb_update, ensure_project_owner, initial_status, parse_upload, segment_rows,
    AddToTbRequest, ConfirmPair, ConfirmRequest, CreateProjectRequest, CreateTbRequest, Project, Segment,
    SegmentStatus, TbEntry, TbTermPair, UpdateProjectRequest, UpdateSegmentRequest, UpdateTbRequest,
};
use memoq::tm::CreateTmRequest;
use memoq::xliff::ParsedSegment;

fn s(x: &str) -> String {
    x.to_string()
}

#[test]
fn project_owner_rules() {
    assert!(matches!(ensure_project_owner(None, "u1"), Err(AppError::NotFound(m)) if m == "Project not found"));
    assert!(matches!(ensure_project_owner(Some(s("u2")), "u1"), Err(AppError::Forbidden)));
    assert!(ensure_project_owner(Some(s("u1")), "u1").is_ok());
}

#[test]
fn shared_entries_can_be_deleted_by_anyone_but_not_changed() {
    assert!(check_entry_delete(Some(None), "u1", "TM entry not found").is_ok());
    assert!(check_entry_delete(Some(Some(s("u1"))), "u1", "TM entry not found").is_ok());
    assert!(matches!(check_entry_delete(Some(Some(s("u2"))), "u1", "x"), Err(AppError::Forbidden)));
    assert!(matches!(check_entry_delete(None, "u1", "TB entry not found"), Err(AppError::NotFound(m)) if m == "TB entry not found"));
    assert!(matches!(check_tb_update(Some(None), "u1"), Err(AppError::Forbidden)));
    assert!(check_tb_update(Some(Some(s("u1"))), "u1").is_ok());
    assert!(matches!(check_tb_update(None, "u1"), Err(AppError::NotFound(m)) if m == "TB entry not found"));
}

#[test]
fn project_create_and_update() {
    let bad = CreateProjectRequest { name: s("   "), source_lang: s("en"), target_lang: s("ko") };
    assert!(matches!(bad.validate(), Err(AppError::BadRequest(m)) if m == "Project name is required"));
    let req = CreateProjectRequest { name: s("Manual"), source_lang: s("en"), target_lang: s("ko") };
    assert!(req.validate().is_ok());
    let p: Project = req.into_project(s("p1"), s("u1"), s("t0"));
    assert_eq!((p.name.as_str(), p.owner_id.as_str(), p.created_at.as_str(), p.updated_at.as_str()), ("Manual", "u1", "t0", "t0"));
    let upd = UpdateProjectRequest { name: Some(s("Guide")), source_lang: None, target_lang: Some(s("ja")) };
    let q = upd.apply(p, s("t1"));
    assert_eq!((q.name.as_str(), q.source_lang.as_str(), q.target_lang.as_str()), ("Guide", "en", "ja"));
    assert_eq!((q.created_at.as_str(), q.updated_at.as_str(), q.id.as_str()), ("t0", "t1", "p1"));
}

#[test]
fn segment_status_names_round_trip() {
    for st in [SegmentStatus::Untranslated, SegmentStatus::Draft, SegmentStatus::Translated, SegmentStatus::Confirmed] {
        let name = st.as_str();
        assert_eq!(SegmentStatus::from_str(name).ok().unwrap().as_str(), name);
    }
    assert_eq!(SegmentStatus::from_str("done").err().unwrap(), "Unknown segment status: done");
}

#[test]
fn segment_update_and_initial_status() {
    let seg = Segment {
        id: s("s1"),
        file_id: s("f1"),
        seg_order: 3,
        source: s("Hello"),
        target: s(""),
        status: s("untranslated"),
        updated_at: s("t0"),
    };
    let upd = UpdateSegmentRequest { target: Some(s("Hola")), status: None };
    let seg = upd.apply(seg, s("t1"));
    assert_eq!((seg.target.as_str(), seg.status.as_str(), seg.updated_at.as_str(), seg.seg_order), ("Hola", "untranslated", "t1", 3));
    assert_eq!(initial_status(""), "untranslated");
    assert_eq!(initial_status("x"), "translated");
    let parsed = vec![
        ParsedSegment { source: s("a"), target: s("") },
        ParsedSegment { source: s("b"), target: s("B") },
    ];
    let rows = segment_rows(&parsed);
    assert_eq!(rows, vec![(0, s("a"), s(""), "untranslated"), (1, s("b"), s("B"), "translated")]);
}

#[test]
fn uploads_accept_xliff_only() {
    let x = "<xliff><file><body><trans-unit id=\"1\"><source>Hi</source><target>Yo</target></trans-unit></body></file></xliff>";
    let segs = parse_upload("Doc.XLF", x.as_bytes()).ok().unwrap();
    assert_eq!(segs.len(), 1);
    assert_eq!(segs[0].source, "Hi");
    assert!(parse_upload("doc.xliff", x.as_bytes()).is_ok());
    for name in ["doc.txt", "doc", "xliff"] {
        assert!(matches!(parse_upload(name, x.as_bytes()),
            Err(AppError::BadRequest(m)) if m == "Only XLIFF (.xliff/.xlf) files are supported for now"));
    }
}

#[test]
fn term_base_create_and_update() {
    let bad = CreateTbRequest {
        source_term: s("x"),
        target_term: s(""),
        source_lang: s("en"),
        target_lang: s("ko"),
        notes: None,
        forbidden: None,
    };
    assert!(matches!(bad.validate(), Err(AppError::BadRequest(m)) if m == "source_term and target_term are required"));
    let req = CreateTbRequest { target_term: s("엑스"), ..bad };
    assert!(req.validate().is_ok());
    let e: TbEntry = req.into_entry(s("e1"), s("u1"), s("t0"));
    assert_eq!((e.notes.as_str(), e.forbidden), ("", false));
    assert_eq!(e.owner_id, Some(s("u1")));
    let upd = UpdateTbRequest { source_term: None, target_term: None, notes: Some(s("n")), forbidden: Some(true) };
    let e = upd.apply(e);
    assert_eq!((e.source_term.as_str(), e.target_term.as_str(), e.notes.as_str(), e.forbidden), ("x", "엑스", "n", true));
}

#[test]
fn extracted_terms_skip_blank_sources_and_trim() {
    let req = AddToTbRequest {
        source_lang: s("en"),
        target_lang: s("ko"),
        terms: vec![
            TbTermPair { source_term: s("  neural network "), target_term: s(" 신경망 "), notes: s("n1") },
            TbTermPair { source_term: s("   "), target_term: s("x"), notes: s("") },
        ],
    };
    assert_eq!(req.rows(), vec![(s("neural network"), s("신경망"), s("n1"))]);
}

#[test]
fn memory_units_from_requests() {
    let req = CreateTmRequest { source: s("a"), target: s("b"), source_lang: s("en"), target_lang: s("ko") };
    let e = req.into_entry(s("id"), s("u1"), s("t0"));
    assert_eq!((e.source.as_str(), e.target.as_str(), e.owner_id.clone()), ("a", "b", Some(s("u1"))));
    let c = ConfirmRequest {
        source_lang: s("en"),
        target_lang: s("ko"),
        pairs: vec![ConfirmPair { source: s("Hi"), target: s("안녕") }, ConfirmPair { source: s(""), target: s("") }],
    };
    let units = c.units();
    assert_eq!(units.len(), 2);
    assert_eq!((units[0].source.as_str(), units[0].target.as_str(), units[0].target_lang.as_str()), ("Hi", "안녕", "ko"));
}
