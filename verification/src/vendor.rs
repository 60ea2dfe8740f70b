//! Vendor assignments: a project owner (or an administrator) hands a
//! project to a vendor, the vendor submits the work once, and the owner
//! approves or rejects it once it is submitted.

use vstd::prelude::*;
use crate::error::{bad_request, error_view, forbidden, not_found, AppError};
use crate::text::{concat, opt_view, str_eq};

verus! {

/// A project (or one of its files) handed to a vendor.
pub struct Assignment {
    pub id: String,
    pub project_id: String,
    pub file_id: Option<String>,
    pub vendor_id: String,
    pub status: String,
    pub notes: String,
    pub submitted_at: Option<String>,
    pub reviewed_at: Option<String>,
    pub created_at: String,
    pub updated_at: String,
}

/// Body of a request that creates an assignment.
pub struct CreateAssignmentRequest {
    /// The vendor user to assign.
    pub vendor_id: String,
    /// Restricts the assignment to one file of the project.
    pub file_id: Option<String>,
}

/// Body of an approval or a rejection.
pub struct ReviewRequest {
    pub notes: Option<String>,
}

/// The decision of a review.
pub enum Verdict {
    Approve,
    Reject,
}

pub open spec fn verdict_status(v: Verdict) -> Seq<char> {
    match v {
        Verdict::Approve => "approved"@,
        Verdict::Reject => "rejected"@,
    }
}

impl Verdict {
    /// The status an assignment takes after the review.
    pub fn status(&self) -> (r: &'static str)
        ensures
            r@ == verdict_status(*self),
    {
        match self {
            Verdict::Approve => "approved",
            Verdict::Reject => "rejected",
        }
    }
}

fn copy_opt(o: &Option<String>) -> (r: Option<String>)
    ensures
        r == *o,
{
    match o {
        Some(s) => Some(s.clone()),
        None => None,
    }
}

/// The owner of a project and administrators manage its assignments.
pub open spec fn manages(owner: Seq<char>, caller: Seq<char>, role: Seq<char>) -> bool {
    owner == caller || role == "admin"@
}

/// Whether `caller` (with role `role`) manages a project owned by `owner`.
pub fn can_manage(owner: &str, caller: &str, role: &str) -> (r: bool)
    ensures
        r == manages(owner@, caller@, role@),
{
    proof {
        reveal_strlit("admin");
    }
    str_eq(owner, caller) || str_eq(role, "admin")
}

/// The refusal of a request to create an assignment, given the owner of
/// the project (`None` when there is no such project).
pub open spec fn create_refusal(owner: Option<Seq<char>>, caller: Seq<char>, role: Seq<char>) -> Option<
    (int, Seq<char>),
> {
    match owner {
        None => Some(not_found("Project not found"@)),
        Some(o) => if manages(o, caller, role) {
            None
        } else {
            Some(forbidden())
        },
    }
}

/// Checks who may create an assignment on a project.
pub fn check_create_access(owner: Option<String>, caller_id: &str, caller_role: &str) -> (r: Result<(), AppError>)
    ensures
        match r {
            Ok(_) => create_refusal(opt_view(owner), caller_id@, caller_role@) is None,
            Err(e) => create_refusal(opt_view(owner), caller_id@, caller_role@) == Some(error_view(e)),
        },
{
    match owner {
        None => Err(AppError::not_found("Project not found")),
        Some(o) => if can_manage(o.as_str(), caller_id, caller_role) {
            Ok(())
        } else {
            Err(AppError::Forbidden)
        },
    }
}

/// The assignee must be a user with the vendor role.
pub fn check_vendor(is_vendor: bool) -> (r: Result<(), AppError>)
    ensures
        is_vendor <==> r is Ok,
        r matches Err(e) ==> error_view(e) == bad_request(
            "Vendor user not found or does not have 'vendor' role"@,
        ),
{
    if is_vendor {
        Ok(())
    } else {
        Err(AppError::bad_request("Vendor user not found or does not have 'vendor' role"))
    }
}

/// A new assignment: pending, without notes, not yet submitted or
/// reviewed.
pub fn new_assignment(id: String, project_id: String, req: &CreateAssignmentRequest, now: String) -> (r: Assignment)
    ensures
        r.id == id,
        r.project_id == project_id,
        r.file_id == req.file_id,
        r.vendor_id == req.vendor_id,
        r.status@ == "pending"@,
        r.notes@ == Seq::<char>::empty(),
        r.submitted_at is None,
        r.reviewed_at is None,
        r.created_at == now,
        r.updated_at == now,
{
    Assignment {
        id,
        project_id,
        file_id: copy_opt(&req.file_id),
        vendor_id: req.vendor_id.clone(),
        status: String::from_str("pending"),
        notes: String::new(),
        submitted_at: None,
        reviewed_at: None,
        created_at: now.clone(),
        updated_at: now,
    }
}

/// The refusal of a submission by `vendor`, given the assignment's vendor
/// and status (`None` when there is no such assignment).
pub open spec fn submit_refusal(row: Option<(Seq<char>, Seq<char>)>, vendor: Seq<char>) -> Option<
    (int, Seq<char>),
> {
    match row {
        None => Some(not_found("Assignment not found"@)),
        Some((v, status)) => if v != vendor {
            Some(forbidden())
        } else if status != "pending"@ {
            Some(
                bad_request("Cannot submit an assignment with status '"@ + status + "'"@),
            )
        } else {
            None
        },
    }
}

pub open spec fn pair_view(row: Option<(String, String)>) -> Option<(Seq<char>, Seq<char>)> {
    match row {
        None => None,
        Some((a, b)) => Some((a@, b@)),
    }
}

/// Checks a submission: only the assigned vendor, only a pending
/// assignment.
pub fn check_submit(row: Option<(String, String)>, vendor_id: &str) -> (r: Result<(), AppError>)
    ensures
        match r {
            Ok(_) => submit_refusal(pair_view(row), vendor_id@) is None,
            Err(e) => submit_refusal(pair_view(row), vendor_id@) == Some(error_view(e)),
        },
{
    match row {
        None => Err(AppError::not_found("Assignment not found")),
        Some((v, status)) => {
            if !str_eq(v.as_str(), vendor_id) {
                Err(AppError::Forbidden)
            } else if !str_eq(status.as_str(), "pending") {
                let m1 = concat("Cannot submit an assignment with status '", status.as_str());
                let m = concat(m1.as_str(), "'");
                Err(AppError::BadRequest(m))
            } else {
                Ok(())
            }
        },
    }
}

/// The assignment once submitted at `now`.
pub fn submitted(a: Assignment, now: String) -> (r: Assignment)
    ensures
        r.status@ == "submitted"@,
        r.submitted_at == Some(now),
        r.updated_at == now,
        r.id == a.id,
        r.project_id == a.project_id,
        r.file_id == a.file_id,
        r.vendor_id == a.vendor_id,
        r.notes == a.notes,
        r.reviewed_at == a.reviewed_at,
        r.created_at == a.created_at,
{
    Assignment {
        status: String::from_str("submitted"),
        submitted_at: Some(now.clone()),
        updated_at: now,
        ..a
    }
}

/// The refusal of a review by `caller`, given the assignment's status and
/// its project's owner (`None` when there is no such assignment).
pub open spec fn review_refusal(
    row: Option<(Seq<char>, Seq<char>)>,
    caller: Seq<char>,
    role: Seq<char>,
) -> Option<(int, Seq<char>)> {
    match row {
        None => Some(not_found("Assignment not found"@)),
        Some((status, owner)) => if !manages(owner, caller, role) {
            Some(forbidden())
        } else if status != "submitted"@ {
            Some(
                bad_request(
                    "Can only review a 'submitted' assignment; current status: '"@ + status + "'"@,
                ),
            )
        } else {
            None
        },
    }
}

/// Checks a review: only the project owner or an administrator, only a
/// submitted assignment. `row` is the assignment's status and the owner of
/// its project.
pub fn check_review(row: Option<(String, String)>, caller_id: &str, caller_role: &str) -> (r: Result<(), AppError>)
    ensures
        match r {
            Ok(_) => review_refusal(pair_view(row), caller_id@, caller_role@) is None,
            Err(e) => review_refusal(pair_view(row), caller_id@, caller_role@) == Some(error_view(e)),
        },
{
    match row {
        None => Err(AppError::not_found("Assignment not found")),
        Some((status, owner)) => {
            if !can_manage(owner.as_str(), caller_id, caller_role) {
                Err(AppError::Forbidden)
            } else if !str_eq(status.as_str(), "submitted") {
                let m1 = concat(
                    "Can only review a 'submitted' assignment; current status: '",
                    status.as_str(),
                );
                let m = concat(m1.as_str(), "'");
                Err(AppError::BadRequest(m))
            } else {
                Ok(())
            }
        },
    }
}

/// The assignment once approved or rejected at `now`, with the notes given
/// (none given: empty).
pub fn reviewed(a: Assignment, verdict: Verdict, notes: Option<String>, now: String) -> (r: Assignment)
    ensures
        r.status@ == verdict_status(verdict),
        r.notes@ == match notes {
            Some(n) => n@,
            None => Seq::<char>::empty(),
        },
        r.reviewed_at == Some(now),
        r.updated_at == now,
        r.id == a.id,
        r.project_id == a.project_id,
        r.file_id == a.file_id,
        r.vendor_id == a.vendor_id,
        r.submitted_at == a.submitted_at,
        r.created_at == a.created_at,
{
    let status = String::from_str(verdict.status());
    let notes = match notes {
        Some(n) => n,
        None => String::new(),
    };
    Assignment { status, notes, reviewed_at: Some(now.clone()), updated_at: now, ..a }
}

/// A vendor's second submission of the same assignment is refused, as
/// is every later one: a submitted assignment is no longer pending.
pub proof fn lemma_double_submit(vendor: Seq<char>)
    ensures
        submit_refusal(Some((vendor, "pending"@)), vendor) is None,
        submit_refusal(Some((vendor, "submitted"@)), vendor) == Some(
            bad_request("Cannot submit an assignment with status 'submitted'"@),
        ),
{
    reveal_strlit("pending");
    reveal_strlit("submitted");
    reveal_strlit("Cannot submit an assignment with status '");
    reveal_strlit("'");
    reveal_strlit("Cannot submit an assignment with status 'submitted'");
    assert("Cannot submit an assignment with status '"@ + "submitted"@ + "'"@
        =~= "Cannot submit an assignment with status 'submitted'"@);
}

/// Only submitted work is reviewed: a pending assignment, or one already
/// approved or rejected, is refused to its owner; a submitted one is
/// accepted.
pub proof fn lemma_review_needs_submission(owner: Seq<char>, role: Seq<char>, status: Seq<char>)
    ensures
        review_refusal(Some((status, owner)), owner, role) is None <==> status == "submitted"@,
        status != "submitted"@ ==> review_refusal(Some((status, owner)), owner, role) == Some(
            bad_request(
                "Can only review a 'submitted' assignment; current status: '"@ + status + "'"@,
            ),
        ),
{
}

/// An administrator manages every project, and an owner manages their own
/// whatever their role.
pub proof fn lemma_admin_manages(owner: Seq<char>, caller: Seq<char>)
    ensures
        manages(owner, caller, "admin"@),
        manages(owner, owner, caller),
{
}

} // verus!
