//! The application's errors and what a caller over HTTP is told of them.

use vstd::prelude::*;

verus! {

/// Any error that a request can end with.
#[derive(Debug)]
pub enum AppError {
    /// A database/query failure, with what the database says: becomes `500`.
    Db(String),
    /// Invalid client input: becomes `400`.
    BadRequest(String),
    /// The caller's role does not permit the action: becomes `403`.
    Forbidden(String),
    /// Requested resource does not exist: becomes `404`.
    NotFound,
    /// An unexpected server-side failure: becomes `500`.
    Internal(String),
}

/// What an [`AppError`] holds.
pub enum ErrorView {
    Db(Seq<char>),
    BadRequest(Seq<char>),
    Forbidden(Seq<char>),
    NotFound,
    Internal(Seq<char>),
}

impl View for AppError {
    type V = ErrorView;

    open spec fn view(&self) -> ErrorView {
        match self {
            AppError::Db(m) => ErrorView::Db(m@),
            AppError::BadRequest(m) => ErrorView::BadRequest(m@),
            AppError::Forbidden(m) => ErrorView::Forbidden(m@),
            AppError::NotFound => ErrorView::NotFound,
            AppError::Internal(m) => ErrorView::Internal(m@),
        }
    }
}

/// The status code that an error is answered with.
pub open spec fn status_of(e: ErrorView) -> u16 {
    match e {
        ErrorView::BadRequest(_) => 400,
        ErrorView::Forbidden(_) => 403,
        ErrorView::NotFound => 404,
        ErrorView::Internal(_) => 500,
        ErrorView::Db(_) => 500,
    }
}

/// The message that an error is answered with.
pub open spec fn message_of(e: ErrorView) -> Seq<char> {
    match e {
        ErrorView::BadRequest(m) => m,
        ErrorView::Forbidden(m) => m,
        ErrorView::NotFound => "not found"@,
        ErrorView::Internal(m) => m,
        ErrorView::Db(m) => m,
    }
}

/// An error as it is written in the log.
pub open spec fn description_of(e: ErrorView) -> Seq<char> {
    match e {
        ErrorView::Db(m) => "database error: "@ + m,
        ErrorView::BadRequest(m) => "bad request: "@ + m,
        ErrorView::Forbidden(m) => "forbidden: "@ + m,
        ErrorView::NotFound => "not found"@,
        ErrorView::Internal(m) => m,
    }
}

/// What a request that ends with an error is answered.
#[derive(Debug)]
pub struct ErrorResponse {
    pub status: u16,
    /// The `error` field of the body.
    pub error: String,
}

fn prefixed(prefix: &str, message: &String) -> (r: String)
    ensures
        r@ == prefix@ + message@,
{
    let mut s = prefix.to_string();
    s.append(message.as_str());
    s
}

impl AppError {
    /// The error as it is written in the log.
    pub fn describe(&self) -> (r: String)
        ensures
            r@ == description_of(self@),
    {
        match self {
            AppError::Db(m) => prefixed("database error: ", m),
            AppError::BadRequest(m) => prefixed("bad request: ", m),
            AppError::Forbidden(m) => prefixed("forbidden: ", m),
            AppError::NotFound => "not found".to_string(),
            AppError::Internal(m) => m.clone(),
        }
    }

    /// What the caller is answered.
    pub fn into_response(self) -> (r: ErrorResponse)
        ensures
            r.status == status_of(self@),
            r.error@ == message_of(self@),
    {
        match self {
            AppError::BadRequest(m) => ErrorResponse { status: 400, error: m },
            AppError::Forbidden(m) => ErrorResponse { status: 403, error: m },
            AppError::NotFound => ErrorResponse { status: 404, error: "not found".to_string() },
            AppError::Internal(m) => ErrorResponse { status: 500, error: m },
            AppError::Db(m) => ErrorResponse { status: 500, error: m },
        }
    }
}

/// Every error is answered with a status of the 4xx or 5xx range, and with 5xx
/// exactly where the failure is the server's.
pub proof fn errors_have_error_status(e: ErrorView)
    ensures
        400 <= status_of(e) < 600,
        status_of(e) >= 500 <==> e is Db || e is Internal,
{
}

// ---------------------------------------------------------------------------
// Laws
// ---------------------------------------------------------------------------

/// What a caller is told and what is written in the log hold the whole message:
/// the log says of which kind it is, where the server did not make it up itself.
pub proof fn message_is_told_whole(m: Seq<char>)
    ensures
        status_of(ErrorView::BadRequest(m)) == 400 && message_of(ErrorView::BadRequest(m)) == m,
        status_of(ErrorView::Forbidden(m)) == 403 && message_of(ErrorView::Forbidden(m)) == m,
        status_of(ErrorView::Internal(m)) == 500 && message_of(ErrorView::Internal(m)) == m,
        status_of(ErrorView::Db(m)) == 500 && message_of(ErrorView::Db(m)) == m,
        status_of(ErrorView::NotFound) == 404 && message_of(ErrorView::NotFound) == "not found"@,
        description_of(ErrorView::BadRequest(m)) == "bad request: "@ + m,
        description_of(ErrorView::Forbidden(m)) == "forbidden: "@ + m,
        description_of(ErrorView::Db(m)) == "database error: "@ + m,
        description_of(ErrorView::Internal(m)) == m,
        description_of(ErrorView::NotFound) == "not found"@,
{
}

} // verus!
