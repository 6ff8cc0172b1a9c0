//! Failures of a filtering run.
use vstd::prelude::*;

verus! {

/// Why a run stopped.
#[derive(Debug, PartialEq, Eq)]
pub enum FilterError {
    /// The input is not well-formed CSV.
    Parse { message: String },
    /// The header has no column of the required name.
    ColumnNotFound { column: String },
    /// The kept records could not be written out as CSV.
    Write { message: String },
}

impl FilterError {
    /// A human-readable description of the failure.
    pub fn describe(&self) -> (r: String)
        ensures
            match self {
                FilterError::Parse { message } => r@ == message@,
                FilterError::ColumnNotFound { column } => r@ == column@,
                FilterError::Write { message } => r@ == message@,
            },
    {
        match self {
            FilterError::Parse { message } => message.clone(),
            FilterError::ColumnNotFound { column } => column.clone(),
            FilterError::Write { message } => message.clone(),
        }
    }
}

} // verus!
