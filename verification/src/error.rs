//! Typed failures of the repository. No error is swallowed or retried:
//! every failure surfaces to the caller with its diagnostic context.

use vstd::prelude::*;

verus! {

/// A failure of a repository operation.
#[derive(Clone, PartialEq, Eq, Debug)]
pub enum DayError {
    /// The underlying statement failed (connectivity, syntax, constraint
    /// violation); carries the statement text for diagnosis.
    StoreError { statement: String },
    /// A result row lacked the expected `id` or `date` field or had the
    /// wrong shape, such as a date outside the supported calendar range.
    DecodeError,
    /// A lookup by identifier found no matching row.
    NotFound,
    /// Calendar subtraction underflowed (practically unreachable given a
    /// valid local clock).
    DateArithmeticError,
}

impl DayError {
    /// A short description of the failure.
    pub fn describe(&self) -> String {
        match self {
            DayError::StoreError { statement: _ } => "store statement failed".to_owned(),
            DayError::DecodeError => "could not decode a result row".to_owned(),
            DayError::NotFound => "no day row with that id".to_owned(),
            DayError::DateArithmeticError => "date arithmetic underflowed".to_owned(),
        }
    }

    /// The text of the statement a store failure carries, if any.
    pub fn statement(&self) -> (r: Option<&String>)
        ensures
            r matches Some(s) ==> self matches DayError::StoreError { statement } && s == statement,
            (r is Some) <==> self matches DayError::StoreError { .. },
    {
        match self {
            DayError::StoreError { statement } => Some(statement),
            _ => None,
        }
    }
}

} // verus!
