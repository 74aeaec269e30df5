//! Errors of the library and their transport mapping.
use vstd::prelude::*;

verus! {

/// The ways a request to the library can fail.
pub enum AppError {
    /// The addressed image or file does not exist.
    NotFound(String),
    /// An unexpected storage failure; its detail is never shown to clients.
    DbError(String),
    /// The request is malformed or refers to something that does not exist.
    BadRequest(String),
}

impl AppError {
    /// The HTTP status code that this error maps to.
    pub fn status_code(&self) -> (r: u16)
        ensures
            self is NotFound ==> r == 404,
            self is DbError ==> r == 500,
            self is BadRequest ==> r == 400,
    {
        match self {
            AppError::NotFound(_) => 404,
            AppError::DbError(_) => 500,
            AppError::BadRequest(_) => 400,
        }
    }

    /// The message shown to a client: storage failures are replaced by a generic text.
    pub fn public_message(&self) -> (r: String)
        ensures
            self matches AppError::NotFound(m) ==> r@ == m@,
            self matches AppError::BadRequest(m) ==> r@ == m@,
            self is DbError ==> r@ == "Internal server error"@,
    {
        match self {
            AppError::NotFound(m) => m.clone(),
            AppError::DbError(_) => String::from_str("Internal server error"),
            AppError::BadRequest(m) => m.clone(),
        }
    }
}

} // verus!
