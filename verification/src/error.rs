//! The error answers of the API.

use vstd::prelude::*;

verus! {

/// Why a request is refused, with the text sent back.
pub enum AppError {
    /// 400: the request is malformed or breaks a rule.
    BadRequest(String),
    /// 401: missing or invalid credentials.
    Unauthorized(String),
    /// 403: the caller may not touch the resource.
    Forbidden,
    /// 404: the resource does not exist.
    NotFound(String),
    /// 429: too many attempts.
    TooManyRequests,
    /// 500: a failure of the server, with its description.
    Internal(String),
}

/// The content of an [`AppError`]: its kind (0 to 5 in the order of the
/// variants) and its text.
pub open spec fn error_view(e: AppError) -> (int, Seq<char>) {
    match e {
        AppError::BadRequest(m) => (0, m@),
        AppError::Unauthorized(m) => (1, m@),
        AppError::Forbidden => (2, seq![]),
        AppError::NotFound(m) => (3, m@),
        AppError::TooManyRequests => (4, seq![]),
        AppError::Internal(m) => (5, m@),
    }
}

pub open spec fn bad_request(m: Seq<char>) -> (int, Seq<char>) {
    (0, m)
}

pub open spec fn unauthorized(m: Seq<char>) -> (int, Seq<char>) {
    (1, m)
}

pub open spec fn forbidden() -> (int, Seq<char>) {
    (2, seq![])
}

pub open spec fn not_found(m: Seq<char>) -> (int, Seq<char>) {
    (3, m)
}

pub open spec fn too_many_requests() -> (int, Seq<char>) {
    (4, seq![])
}

pub open spec fn internal(m: Seq<char>) -> (int, Seq<char>) {
    (5, m)
}

/// The view of a result whose success carries no data.
pub open spec fn unit_result(r: Result<(), AppError>) -> Option<(int, Seq<char>)> {
    match r {
        Ok(_) => None,
        Err(e) => Some(error_view(e)),
    }
}

impl AppError {
    pub fn bad_request(msg: &str) -> (r: AppError)
        ensures
            error_view(r) == bad_request(msg@),
    {
        AppError::BadRequest(String::from_str(msg))
    }

    pub fn unauthorized(msg: &str) -> (r: AppError)
        ensures
            error_view(r) == unauthorized(msg@),
    {
        AppError::Unauthorized(String::from_str(msg))
    }

    pub fn not_found(msg: &str) -> (r: AppError)
        ensures
            error_view(r) == not_found(msg@),
    {
        AppError::NotFound(String::from_str(msg))
    }
}

} // verus!
