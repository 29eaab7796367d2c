//! The errors a request can end in, and the status each one is answered with.

use vstd::prelude::*;

verus! {

/// Why a request failed. The variants carry the failing layer's message.
#[derive(Debug)]
pub enum AppError {
    /// The database refused or failed a query.
    Db(String),
    /// The request's form or parameters could not be parsed.
    Parse(String),
    /// A JSON document could not be read or written.
    Json(String),
    /// Any other failure.
    Other(String),
    /// Required state or a required parameter is missing.
    NotFound,
}

/// The HTTP status a failed request is answered with: 400 Bad Request for a
/// parse failure or something missing, 500 Internal Server Error otherwise.
pub open spec fn status_for(e: AppError) -> u16 {
    match e {
        AppError::Parse(_) | AppError::NotFound => 400,
        _ => 500,
    }
}

impl AppError {
    /// The HTTP status this error is answered with.
    pub fn status_code(&self) -> (s: u16)
        ensures
            s == status_for(*self),
    {
        match self {
            AppError::Parse(_) | AppError::NotFound => 400,
            _ => 500,
        }
    }
}

} // verus!
