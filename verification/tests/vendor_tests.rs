use memoq::error::AppError;
use memoq::vendor::{
    can_manage, check_create_access, check_review, check_submit, check_vendor, new_assignment, reviewed,
    submitted, CreateAssignmentRequest, Verdict,
};

fn s(x: &str) -> String {
    x.to_string()
}

fn bad(r: Result<(), AppError>) -> String {
    match r {
        Err(AppError::BadRequest(m)) => m,
        _ => panic!("expected a bad request"),
    }
}

#[test]
fn owner_or_admin_manages() {
    assert!(can_manage("u1", "u1", "translator"));
    assert!(can_manage("u1", "u9", "admin"));
    assert!(!can_manage("u1", "u9", "vendor"));
}

#[test]
fn create_access_rules() {
    assert!(matches!(check_create_access(None, "u1", "admin"), Err(AppError::NotFound(m)) if m == "Project not found"));
    assert!(matches!(check_create_access(Some(s("u1")), "u2", "translator"), Err(AppError::Forbidden)));
    assert!(check_create_access(Some(s("u1")), "u1", "translator").is_ok());
    assert_eq!(bad(check_vendor(false)), "Vendor user not found or does not have 'vendor' role");
}

#[test]
fn assignment_lifecycle() {
    let req = CreateAssignmentRequest { vendor_id: s("v1"), file_id: None };
    let a = new_assignment(s("a1"), s("p1"), &req, s("t0"));
    assert_eq!(a.status, "pending");
    assert_eq!(a.notes, "");
    assert_eq!(a.submitted_at, None);
    assert!(check_submit(Some((s("v1"), a.status.clone())), "v1").is_ok());
    assert!(matches!(check_submit(Some((s("v1"), a.status.clone())), "v2"), Err(AppError::Forbidden)));
    let a = submitted(a, s("t1"));
    assert_eq!(a.status, "submitted");
    assert_eq!(a.submitted_at, Some(s("t1")));
    assert_eq!(a.updated_at, "t1");
    // a second submission is refused
    assert_eq!(
        bad(check_submit(Some((s("v1"), a.status.clone())), "v1")),
        "Cannot submit an assignment with status 'submitted'"
    );
    assert!(check_review(Some((a.status.clone(), s("owner"))), "owner", "translator").is_ok());
    let a = reviewed(a, Verdict::Approve, Some(s("good")), s("t2"));
    assert_eq!(a.status, "approved");
    assert_eq!(a.notes, "good");
    assert_eq!(a.reviewed_at, Some(s("t2")));
    assert_eq!(
        bad(check_review(Some((a.status.clone(), s("owner"))), "owner", "translator")),
        "Can only review a 'submitted' assignment; current status: 'approved'"
    );
}

#[test]
fn review_rules() {
    assert!(matches!(check_review(None, "u", "admin"), Err(AppError::NotFound(m)) if m == "Assignment not found"));
    assert!(matches!(check_review(Some((s("submitted"), s("o"))), "x", "vendor"), Err(AppError::Forbidden)));
    assert!(check_review(Some((s("submitted"), s("o"))), "x", "admin").is_ok());
    assert_eq!(
        bad(check_review(Some((s("pending"), s("o"))), "o", "translator")),
        "Can only review a 'submitted' assignment; current status: 'pending'"
    );
    let req = CreateAssignmentRequest { vendor_id: s("v1"), file_id: Some(s("f1")) };
    let a = reviewed(new_assignment(s("a"), s("p"), &req, s("t")), Verdict::Reject, None, s("t3"));
    assert_eq!(a.status, "rejected");
    assert_eq!(a.notes, "");
    assert_eq!(a.file_id, Some(s("f1")));
    assert!(matches!(check_submit(None, "v1"), Err(AppError::NotFound(m)) if m == "Assignment not found"));
}
