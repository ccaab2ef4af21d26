//! Errors of the query surface.

use crate::text::owned;
use vstd::prelude::*;
use vstd::string::*;

verus! {

/// What can go wrong with a request.
#[derive(Debug)]
pub enum AppError {
    /// The query cannot be read.
    InvalidQueryString(String),
    /// The store failed.
    DbError(String),
    /// A parameter was refused; the details pair names with reasons.
    ValidationError(String, Option<Vec<(String, String)>>),
    /// A value was refused, for the reason given.
    ValidationErrorCustom(String),
}

impl AppError {
    /// The error in one line: its kind, then its text.
    pub open spec fn description(&self) -> Seq<char> {
        match *self {
            AppError::InvalidQueryString(m) => "InvalidQueryString: "@ + m@,
            AppError::DbError(m) => "DbError: "@ + m@,
            AppError::ValidationError(m, _) => "ValidationError: "@ + m@,
            AppError::ValidationErrorCustom(m) => "ValidationErrorCustom: "@ + m@,
        }
    }

    pub fn describe(&self) -> (r: String)
        ensures
            r@ == self.description(),
    {
        match self {
            AppError::InvalidQueryString(m) => {
                let mut r = owned("InvalidQueryString: ");
                r.append(m.as_str());
                r
            },
            AppError::DbError(m) => {
                let mut r = owned("DbError: ");
                r.append(m.as_str());
                r
            },
            AppError::ValidationError(m, _) => {
                let mut r = owned("ValidationError: ");
                r.append(m.as_str());
                r
            },
            AppError::ValidationErrorCustom(m) => {
                let mut r = owned("ValidationErrorCustom: ");
                r.append(m.as_str());
                r
            },
        }
    }

    /// The text that goes with the error.
    pub open spec fn message(&self) -> Seq<char> {
        match *self {
            AppError::InvalidQueryString(m) => m@,
            AppError::DbError(m) => m@,
            AppError::ValidationError(m, _) => m@,
            AppError::ValidationErrorCustom(m) => m@,
        }
    }
}

} // verus!
