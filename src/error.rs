//! The failures that the operations report.
use vstd::prelude::*;

verus! {

/// A failed request.
#[derive(Debug, Clone, PartialEq, Eq)]
pub enum AppError {
    /// The request body does not have the shape that the operation takes.
    BadRequest(String),
}

impl AppError {
    /// The text sent to the client.
    pub fn message(&self) -> (r: String)
        ensures
            r@ == match self {
                AppError::BadRequest(m) => m@,
            },
    {
        match self {
            AppError::BadRequest(m) => m.clone(),
        }
    }
}

} // verus!
