//! The stored records of the API (projects, files, segments, term-base and
//! memory entries), the requests that create or change them, and who may
//! touch them.

use vstd::prelude::*;
use crate::error::{bad_request, error_view, forbidden, not_found, AppError};
use crate::text::{blank, concat, is_blank, opt_view, str_eq, trim, trim_str};
use crate::tm::{CreateTmRequest, TmEntry};
use crate::xliff::{parse_xliff, parse_view, segment_views, ParsedSegment};

verus! {

// ───────────────────────────── access ─────────────────────────────

/// The refusal owed to `user` for a project owned by `owner` (`None` when
/// there is no such project).
pub open spec fn project_refusal(owner: Option<Seq<char>>, user: Seq<char>) -> Option<(int, Seq<char>)> {
    match owner {
        None => Some(not_found("Project not found"@)),
        Some(o) => if o == user {
            None
        } else {
            Some(forbidden())
        },
    }
}

/// Only the owner of a project reads or changes it, its files and its
/// segments.
pub fn ensure_project_owner(owner: Option<String>, user_id: &str) -> (r: Result<(), AppError>)
    ensures
        match r {
            Ok(_) => project_refusal(opt_view(owner), user_id@) is None,
            Err(e) => project_refusal(opt_view(owner), user_id@) == Some(error_view(e)),
        },
{
    match owner {
        None => Err(AppError::not_found("Project not found")),
        Some(o) => if str_eq(o.as_str(), user_id) {
            Ok(())
        } else {
            Err(AppError::Forbidden)
        },
    }
}

/// The refusal owed to `user` who deletes a shared entry (of the memory or
/// of the term base): `existing` is `None` when there is no such entry,
/// else the entry's owner, `None` for an entry shared by everyone, which
/// anyone may delete.
pub open spec fn delete_refusal(existing: Option<Option<Seq<char>>>, user: Seq<char>, missing: Seq<char>) -> Option<
    (int, Seq<char>),
> {
    match existing {
        None => Some(not_found(missing)),
        Some(Some(o)) => if o == user {
            None
        } else {
            Some(forbidden())
        },
        Some(None) => None,
    }
}

pub open spec fn nested_view(e: Option<Option<String>>) -> Option<Option<Seq<char>>> {
    match e {
        None => None,
        Some(o) => Some(opt_view(o)),
    }
}

/// Checks the deletion of a memory or term-base entry; `missing` is the
/// text of the answer when it does not exist.
pub fn check_entry_delete(existing: Option<Option<String>>, user_id: &str, missing: &str) -> (r: Result<(), AppError>)
    ensures
        match r {
            Ok(_) => delete_refusal(nested_view(existing), user_id@, missing@) is None,
            Err(e) => delete_refusal(nested_view(existing), user_id@, missing@) == Some(error_view(e)),
        },
{
    match existing {
        None => Err(AppError::not_found(missing)),
        Some(Some(o)) => if str_eq(o.as_str(), user_id) {
            Ok(())
        } else {
            Err(AppError::Forbidden)
        },
        Some(None) => Ok(()),
    }
}

// ───────────────────────────── projects ─────────────────────────────

/// A translation project.
pub struct Project {
    pub id: String,
    pub name: String,
    pub source_lang: String,
    pub target_lang: String,
    pub owner_id: String,
    pub created_at: String,
    pub updated_at: String,
}

/// A document uploaded to a project.
pub struct ProjectFile {
    pub id: String,
    pub project_id: String,
    pub name: String,
    pub file_path: String,
    pub created_at: String,
}

/// Body of a request that creates a project.
pub struct CreateProjectRequest {
    pub name: String,
    pub source_lang: String,
    pub target_lang: String,
}

/// Body of a request that changes a project: the fields given replace the
/// stored ones.
pub struct UpdateProjectRequest {
    pub name: Option<String>,
    pub source_lang: Option<String>,
    pub target_lang: Option<String>,
}

pub open spec fn or_else(o: Option<String>, d: String) -> String {
    match o {
        Some(v) => v,
        None => d,
    }
}

impl CreateProjectRequest {
    /// A project needs a non-blank name.
    pub fn validate(&self) -> (r: Result<(), AppError>)
        ensures
            r is Ok <==> !is_blank(self.name@),
            r matches Err(e) ==> error_view(e) == bad_request("Project name is required"@),
    {
        if blank(self.name.as_str()) {
            Err(AppError::bad_request("Project name is required"))
        } else {
            Ok(())
        }
    }

    /// The project created by `owner_id` at `now`.
    pub fn into_project(self, id: String, owner_id: String, now: String) -> (r: Project)
        ensures
            r.id == id,
            r.name == self.name,
            r.source_lang == self.source_lang,
            r.target_lang == self.target_lang,
            r.owner_id == owner_id,
            r.created_at == now,
            r.updated_at == now,
    {
        Project {
            id,
            name: self.name,
            source_lang: self.source_lang,
            target_lang: self.target_lang,
            owner_id,
            created_at: now.clone(),
            updated_at: now,
        }
    }
}

impl UpdateProjectRequest {
    /// The project after the change, made at `now`.
    pub fn apply(self, current: Project, now: String) -> (r: Project)
        ensures
            r.name == or_else(self.name, current.name),
            r.source_lang == or_else(self.source_lang, current.source_lang),
            r.target_lang == or_else(self.target_lang, current.target_lang),
            r.updated_at == now,
            r.id == current.id,
            r.owner_id == current.owner_id,
            r.created_at == current.created_at,
    {
        let name = match self.name {
            Some(v) => v,
            None => current.name,
        };
        let source_lang = match self.source_lang {
            Some(v) => v,
            None => current.source_lang,
        };
        let target_lang = match self.target_lang {
            Some(v) => v,
            None => current.target_lang,
        };
        Project {
            id: current.id,
            name,
            source_lang,
            target_lang,
            owner_id: current.owner_id,
            created_at: current.created_at,
            updated_at: now,
        }
    }
}

// ───────────────────────────── segments ─────────────────────────────

/// The workflow state of a segment.
pub enum SegmentStatus {
    Untranslated,
    Draft,
    Translated,
    Confirmed,
}

pub open spec fn status_text(s: SegmentStatus) -> Seq<char> {
    match s {
        SegmentStatus::Untranslated => "untranslated"@,
        SegmentStatus::Draft => "draft"@,
        SegmentStatus::Translated => "translated"@,
        SegmentStatus::Confirmed => "confirmed"@,
    }
}

/// The status named by a text, if any.
pub open spec fn status_of(t: Seq<char>) -> Option<SegmentStatus> {
    if t == "untranslated"@ {
        Some(SegmentStatus::Untranslated)
    } else if t == "draft"@ {
        Some(SegmentStatus::Draft)
    } else if t == "translated"@ {
        Some(SegmentStatus::Translated)
    } else if t == "confirmed"@ {
        Some(SegmentStatus::Confirmed)
    } else {
        None
    }
}

impl SegmentStatus {
    /// The name of the status as stored.
    pub fn as_str(&self) -> (r: &'static str)
        ensures
            r@ == status_text(*self),
    {
        match self {
            SegmentStatus::Untranslated => "untranslated",
            SegmentStatus::Draft => "draft",
            SegmentStatus::Translated => "translated",
            SegmentStatus::Confirmed => "confirmed",
        }
    }

    /// The status named by `s`; any other text is refused with
    /// "Unknown segment status: " and the text.
    pub fn from_str(s: &str) -> (r: Result<SegmentStatus, String>)
        ensures
            match r {
                Ok(st) => status_of(s@) == Some(st),
                Err(m) => status_of(s@) is None && m@ == "Unknown segment status: "@ + s@,
            },
    {
        if str_eq(s, "untranslated") {
            Ok(SegmentStatus::Untranslated)
        } else if str_eq(s, "draft") {
            Ok(SegmentStatus::Draft)
        } else if str_eq(s, "translated") {
            Ok(SegmentStatus::Translated)
        } else if str_eq(s, "confirmed") {
            Ok(SegmentStatus::Confirmed)
        } else {
            Err(concat("Unknown segment status: ", s))
        }
    }
}

/// Reading back the name of a status gives the status; distinct statuses
/// have distinct names.
pub proof fn lemma_status_round_trip(s: SegmentStatus, t: SegmentStatus)
    ensures
        status_of(status_text(s)) == Some(s),
        status_text(s) == status_text(t) ==> s == t,
{
    reveal_strlit("untranslated");
    reveal_strlit("draft");
    reveal_strlit("translated");
    reveal_strlit("confirmed");
    // the four names differ in length
    assert("untranslated"@.len() == 12);
    assert("draft"@.len() == 5);
    assert("translated"@.len() == 10);
    assert("confirmed"@.len() == 9);
}

/// A sentence of a document, with its translation.
pub struct Segment {
    pub id: String,
    pub file_id: String,
    pub seg_order: i64,
    pub source: String,
    pub target: String,
    pub status: String,
    pub updated_at: String,
}

/// Body of a request that changes a segment.
pub struct UpdateSegmentRequest {
    pub target: Option<String>,
    pub status: Option<String>,
}

impl UpdateSegmentRequest {
    /// The segment after the change, made at `now`.
    pub fn apply(self, current: Segment, now: String) -> (r: Segment)
        ensures
            r.target == or_else(self.target, current.target),
            r.status == or_else(self.status, current.status),
            r.updated_at == now,
            r.id == current.id,
            r.file_id == current.file_id,
            r.seg_order == current.seg_order,
            r.source == current.source,
    {
        let target = match self.target {
            Some(v) => v,
            None => current.target,
        };
        let status = match self.status {
            Some(v) => v,
            None => current.status,
        };
        Segment {
            id: current.id,
            file_id: current.file_id,
            seg_order: current.seg_order,
            source: current.source,
            target,
            status,
            updated_at: now,
        }
    }
}

/// A segment whose target is empty starts untranslated, any other starts
/// translated.
pub fn initial_status(target: &str) -> (r: &'static str)
    ensures
        r@ == if target@.len() == 0 {
            "untranslated"@
        } else {
            "translated"@
        },
{
    if target.is_empty() {
        "untranslated"
    } else {
        "translated"
    }
}

/// The segments of an uploaded document, in order: position, source,
/// target and starting status.
pub fn segment_rows(parsed: &Vec<ParsedSegment>) -> (r: Vec<(i64, String, String, &'static str)>)
    requires
        parsed@.len() <= i64::MAX,
    ensures
        r@.len() == parsed@.len(),
        forall|i: int|
            0 <= i < r@.len() ==> {
                &&& (#[trigger] r@[i]).0 == i
                &&& r@[i].1 == parsed@[i].source
                &&& r@[i].2 == parsed@[i].target
                &&& r@[i].3@ == if parsed@[i].target@.len() == 0 {
                    "untranslated"@
                } else {
                    "translated"@
                }
            },
{
    let mut out: Vec<(i64, String, String, &'static str)> = Vec::new();
    let mut i: usize = 0;
    while i < parsed.len()
        invariant
            i <= parsed@.len(),
            parsed@.len() <= i64::MAX,
            out@.len() == i,
            forall|k: int|
                0 <= k < i ==> {
                    &&& (#[trigger] out@[k]).0 == k
                    &&& out@[k].1 == parsed@[k].source
                    &&& out@[k].2 == parsed@[k].target
                    &&& out@[k].3@ == if parsed@[k].target@.len() == 0 {
                        "untranslated"@
                    } else {
                        "translated"@
                    }
                },
        decreases parsed@.len() - i,
    {
        let seg = &parsed[i];
        let status = initial_status(seg.target.as_str());
        out.push((i as i64, seg.source.clone(), seg.target.clone(), status));
        i = i + 1;
    }
    out
}

// ───────────────────────────── uploads ─────────────────────────────

/// What `Path::extension` gives for a file name: the text after the last
/// dot of its last component, unless that dot begins the name.
pub uninterp spec fn extension_of(path: Seq<char>) -> Option<Seq<char>>;

/// `std::path::Path::extension` of a file name, as text; the component
/// rules of `Path` are not restated.
#[verifier::external_body]
fn path_extension(path: &str) -> (r: Option<String>)
    ensures
        opt_view(r) == extension_of(path@),
{
    match std::path::Path::new(path).extension() {
        Some(e) => e.to_str().map(String::from),
        None => None,
    }
}

/// The lower-cased extension of an uploaded file's name (empty when it
/// has none).
pub open spec fn upload_extension(file_name: Seq<char>) -> Seq<char> {
    match extension_of(file_name) {
        Some(e) => crate::text::lowercase(e),
        None => crate::text::lowercase(Seq::empty()),
    }
}

/// Only XLIFF documents can be uploaded to a project; the segments of an
/// accepted document are those of its parsing.
pub fn parse_upload(file_name: &str, bytes: &[u8]) -> (r: Result<Vec<ParsedSegment>, AppError>)
    ensures
        upload_extension(file_name@) != "xliff"@ && upload_extension(file_name@) != "xlf"@ ==> (r matches Err(
            e,
        ) && error_view(e) == bad_request(
            "Only XLIFF (.xliff/.xlf) files are supported for now"@,
        )),
        upload_extension(file_name@) == "xliff"@ || upload_extension(file_name@) == "xlf"@ ==> exists|
            k: nat,
        |
            crate::xml::first_stop(bytes@, true, k) && match (r, crate::xliff::xliff_result(
                bytes@,
                k,
            )) {
                (Ok(v), Ok(w)) => segment_views(v@) == w,
                (Err(e), Err(m)) => error_view(e) == bad_request(m),
                _ => false,
            },
{
    let ext = match path_extension(file_name) {
        Some(e) => crate::text::to_lowercase(e.as_str()),
        None => crate::text::to_lowercase(""),
    };
    proof {
        reveal_strlit("");
    }
    assert(ext@ == upload_extension(file_name@)) by {
        assert(""@ =~= Seq::<char>::empty());
    }
    if str_eq(ext.as_str(), "xliff") || str_eq(ext.as_str(), "xlf") {
        match parse_xliff(bytes) {
            Ok(v) => Ok(v),
            Err(e) => Err(AppError::BadRequest(e.message)),
        }
    } else {
        Err(AppError::bad_request("Only XLIFF (.xliff/.xlf) files are supported for now"))
    }
}

// ───────────────────────────── term base ─────────────────────────────

/// A term-base entry.
pub struct TbEntry {
    pub id: String,
    pub source_term: String,
    pub target_term: String,
    pub source_lang: String,
    pub target_lang: String,
    pub notes: String,
    pub forbidden: bool,
    pub owner_id: Option<String>,
    pub created_at: String,
}

/// Body of a request that adds a term.
pub struct CreateTbRequest {
    pub source_term: String,
    pub target_term: String,
    pub source_lang: String,
    pub target_lang: String,
    pub notes: Option<String>,
    pub forbidden: Option<bool>,
}

/// Body of a request that changes a term.
pub struct UpdateTbRequest {
    pub source_term: Option<String>,
    pub target_term: Option<String>,
    pub notes: Option<String>,
    pub forbidden: Option<bool>,
}

impl CreateTbRequest {
    /// A term needs a non-blank source and target.
    pub fn validate(&self) -> (r: Result<(), AppError>)
        ensures
            r is Ok <==> !is_blank(self.source_term@) && !is_blank(self.target_term@),
            r matches Err(e) ==> error_view(e) == bad_request(
                "source_term and target_term are required"@,
            ),
    {
        if blank(self.source_term.as_str()) || blank(self.target_term.as_str()) {
            Err(AppError::bad_request("source_term and target_term are required"))
        } else {
            Ok(())
        }
    }

    /// The entry added by `owner_id` at `now`: without notes unless given,
    /// and not forbidden unless said.
    pub fn into_entry(self, id: String, owner_id: String, now: String) -> (r: TbEntry)
        ensures
            r.id == id,
            r.source_term == self.source_term,
            r.target_term == self.target_term,
            r.source_lang == self.source_lang,
            r.target_lang == self.target_lang,
            r.notes@ == match self.notes {
                Some(n) => n@,
                None => Seq::<char>::empty(),
            },
            r.forbidden == match self.forbidden {
                Some(f) => f,
                None => false,
            },
            r.owner_id == Some(owner_id),
            r.created_at == now,
    {
        let notes = match self.notes {
            Some(n) => n,
            None => String::new(),
        };
        let forbidden = match self.forbidden {
            Some(f) => f,
            None => false,
        };
        TbEntry {
            id,
            source_term: self.source_term,
            target_term: self.target_term,
            source_lang: self.source_lang,
            target_lang: self.target_lang,
            notes,
            forbidden,
            owner_id: Some(owner_id),
            created_at: now,
        }
    }
}

/// The refusal owed to `user` who changes a term: `existing` is `None`
/// when there is no such term, else its owner; shared terms cannot be
/// changed.
pub open spec fn tb_update_refusal(existing: Option<Option<Seq<char>>>, user: Seq<char>) -> Option<
    (int, Seq<char>),
> {
    match existing {
        None => Some(not_found("TB entry not found"@)),
        Some(owner) => if owner == Some(user) {
            None
        } else {
            Some(forbidden())
        },
    }
}

/// Checks who may change a term.
pub fn check_tb_update(existing: Option<Option<String>>, user_id: &str) -> (r: Result<(), AppError>)
    ensures
        match r {
            Ok(_) => tb_update_refusal(nested_view(existing), user_id@) is None,
            Err(e) => tb_update_refusal(nested_view(existing), user_id@) == Some(error_view(e)),
        },
{
    match existing {
        None => Err(AppError::not_found("TB entry not found")),
        Some(Some(o)) => if str_eq(o.as_str(), user_id) {
            Ok(())
        } else {
            Err(AppError::Forbidden)
        },
        Some(None) => Err(AppError::Forbidden),
    }
}

impl UpdateTbRequest {
    /// The term after the change.
    pub fn apply(self, current: TbEntry) -> (r: TbEntry)
        ensures
            r.source_term == or_else(self.source_term, current.source_term),
            r.target_term == or_else(self.target_term, current.target_term),
            r.notes == or_else(self.notes, current.notes),
            r.forbidden == match self.forbidden {
                Some(f) => f,
                None => current.forbidden,
            },
            r.id == current.id,
            r.source_lang == current.source_lang,
            r.target_lang == current.target_lang,
            r.owner_id == current.owner_id,
            r.created_at == current.created_at,
    {
        let source_term = match self.source_term {
            Some(v) => v,
            None => current.source_term,
        };
        let target_term = match self.target_term {
            Some(v) => v,
            None => current.target_term,
        };
        let notes = match self.notes {
            Some(v) => v,
            None => current.notes,
        };
        let forbidden = match self.forbidden {
            Some(v) => v,
            None => current.forbidden,
        };
        TbEntry {
            id: current.id,
            source_term,
            target_term,
            source_lang: current.source_lang,
            target_lang: current.target_lang,
            notes,
            forbidden,
            owner_id: current.owner_id,
            created_at: current.created_at,
        }
    }
}

/// Body of a request that adds extracted terms to the term base.
pub struct AddToTbRequest {
    pub source_lang: String,
    pub target_lang: String,
    pub terms: Vec<TbTermPair>,
}

/// One extracted term with its translation.
pub struct TbTermPair {
    pub source_term: String,
    pub target_term: String,
    pub notes: String,
}

/// How many terms were added.
pub struct AddToTbResponse {
    pub saved: usize,
}

/// The terms that are stored from a list: each with a non-blank source,
/// trimmed, in order, with its notes.
pub open spec fn kept_terms(terms: Seq<TbTermPair>) -> Seq<(Seq<char>, Seq<char>, Seq<char>)>
    decreases terms.len(),
{
    if terms.len() == 0 {
        seq![]
    } else {
        let rest = kept_terms(terms.drop_last());
        let t = terms.last();
        if is_blank(t.source_term@) {
            rest
        } else {
            rest.push((trim(t.source_term@), trim(t.target_term@), t.notes@))
        }
    }
}

pub open spec fn triple_views(v: Seq<(String, String, String)>) -> Seq<(Seq<char>, Seq<char>, Seq<char>)> {
    v.map_values(|t: (String, String, String)| (t.0@, t.1@, t.2@))
}

impl AddToTbRequest {
    /// The rows to store: source, target and notes of every term with a
    /// non-blank source, trimmed.
    pub fn rows(&self) -> (r: Vec<(String, String, String)>)
        ensures
            triple_views(r@) == kept_terms(self.terms@),
    {
        let mut out: Vec<(String, String, String)> = Vec::new();
        let mut i: usize = 0;
        while i < self.terms.len()
            invariant
                i <= self.terms@.len(),
                triple_views(out@) == kept_terms(self.terms@.take(i as int)),
            decreases self.terms@.len() - i,
        {
            assert(self.terms@.take(i + 1).drop_last() =~= self.terms@.take(i as int));
            let t = &self.terms[i];
            if !blank(t.source_term.as_str()) {
                let row = (
                    trim_str(t.source_term.as_str()),
                    trim_str(t.target_term.as_str()),
                    t.notes.clone(),
                );
                out.push(row);
                assert(triple_views(out@) =~= kept_terms(self.terms@.take(i as int)).push(
                    (trim(t.source_term@), trim(t.target_term@), t.notes@),
                ));
            }
            i = i + 1;
        }
        assert(self.terms@.take(self.terms@.len() as int) =~= self.terms@);
        out
    }
}

// ───────────────────────────── memory ─────────────────────────────

impl CreateTmRequest {
    /// The unit added by `owner_id` at `now`.
    pub fn into_entry(self, id: String, owner_id: String, now: String) -> (r: TmEntry)
        ensures
            r.id == id,
            r.source == self.source,
            r.target == self.target,
            r.source_lang == self.source_lang,
            r.target_lang == self.target_lang,
            r.owner_id == Some(owner_id),
            r.created_at == now,
    {
        TmEntry {
            id,
            source: self.source,
            target: self.target,
            source_lang: self.source_lang,
            target_lang: self.target_lang,
            owner_id: Some(owner_id),
            created_at: now,
        }
    }
}

/// Body of a request that stores aligned sentence pairs in the memory.
pub struct ConfirmRequest {
    pub source_lang: String,
    pub target_lang: String,
    pub pairs: Vec<ConfirmPair>,
}

/// An aligned pair to store.
pub struct ConfirmPair {
    pub source: String,
    pub target: String,
}

/// How many pairs were stored.
pub struct ConfirmResponse {
    pub saved: usize,
}

impl ConfirmRequest {
    /// The units to store, one per pair, in order: source, target, source
    /// language, target language.
    pub fn units(&self) -> (r: Vec<CreateTmRequest>)
        ensures
            r@.len() == self.pairs@.len(),
            forall|i: int|
                0 <= i < r@.len() ==> {
                    &&& (#[trigger] r@[i]).source == self.pairs@[i].source
                    &&& r@[i].target == self.pairs@[i].target
                    &&& r@[i].source_lang == self.source_lang
                    &&& r@[i].target_lang == self.target_lang
                },
    {
        let mut out: Vec<CreateTmRequest> = Vec::new();
        let mut i: usize = 0;
        while i < self.pairs.len()
            invariant
                i <= self.pairs@.len(),
                out@.len() == i,
                forall|k: int|
                    0 <= k < i ==> {
                        &&& (#[trigger] out@[k]).source == self.pairs@[k].source
                        &&& out@[k].target == self.pairs@[k].target
                        &&& out@[k].source_lang == self.source_lang
                        &&& out@[k].target_lang == self.target_lang
                    },
            decreases self.pairs@.len() - i,
        {
            let p = &self.pairs[i];
            out.push(
                CreateTmRequest {
                    source: p.source.clone(),
                    target: p.target.clone(),
                    source_lang: self.source_lang.clone(),
                    target_lang: self.target_lang.clone(),
                },
            );
            i = i + 1;
        }
        out
    }
}

} // verus!
