//! Error values for the booklet calculation and the surrounding rewriting.
//!
//! These helper functions reduce repetition when code around the engine
//! reports failures.

use vstd::prelude::*;

verus! {

broadcast use vstd::string::to_string_from_display_ensures_for_str;

/// What went wrong: either the document had no pages at all, so the
/// calculation never started, or a structural element needed for rewriting
/// was missing or malformed.
#[derive(Debug)]
pub enum OrderError {
    /// The supplied page count was zero.
    EmptyDocument,
    /// A structural element was missing or malformed; the payload says which.
    InvalidData(String),
}

impl OrderError {
    /// A human-readable description of the failure.
    pub fn message(&self) -> (r: &str)
        ensures
            (match self {
                OrderError::EmptyDocument => r@ == "Need nonzero document length"@,
                OrderError::InvalidData(m) => r@ == m@,
            }),
    {
        match self {
            OrderError::EmptyDocument => "Need nonzero document length",
            OrderError::InvalidData(m) => m.as_str(),
        }
    }
}

/// The error reported when a document has no pages.
pub fn nonzero_error() -> (r: OrderError)
    ensures
        r is EmptyDocument,
{
    OrderError::EmptyDocument
}

/// The error reported when a structural element is missing or malformed.
pub fn invalid(err: &str) -> (r: OrderError)
    ensures
        r matches OrderError::InvalidData(m) && m@ == err@,
{
    OrderError::InvalidData(err.to_string())
}

} // verus!
