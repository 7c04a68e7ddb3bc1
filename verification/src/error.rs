//! The error taxonomy shared by every fallible operation of the crate.

use vstd::prelude::*;

verus! {

/// Why an operation was refused or failed.
#[derive(Clone, Debug, PartialEq, Eq)]
pub enum Error {
    /// Two caller-provided collections disagree in length where equality is required.
    ShapeMismatch,
    /// A coordinate list does not describe a matrix with strictly increasing
    /// columns inside each row, or names a row that the matrix does not have.
    MalformedMatrix,
    /// A generator could not produce a sequence of the requested length.
    LengthInvariantViolated,
    /// The accelerator is unavailable, switched off, or the point set is too small.
    InitializationFailed,
    /// The accelerator returned a non-zero status.
    AcceleratorFailure { code: i32, message: String },
    /// The witness segments `[W, u, U]` do not add up to the matrix's column count.
    WitnessShapeMismatch,
}

impl Error {
    /// The text of [`describe`](Self::describe): the accelerator's own
    /// message for its failures, and a fixed phrase for every other error.
    pub open spec fn description(&self) -> Seq<char> {
        match self {
            Error::ShapeMismatch => "length mismatch"@,
            Error::MalformedMatrix => "malformed matrix"@,
            Error::LengthInvariantViolated => "length invariant violated"@,
            Error::InitializationFailed => "accelerator initialization failed"@,
            Error::AcceleratorFailure { code: _, message } => message@,
            Error::WitnessShapeMismatch => "invalid witness size"@,
        }
    }

    /// A short human-readable description, for callers that print errors.
    pub fn describe(&self) -> (s: String)
        ensures
            s@ == self.description(),
    {
        match self {
            Error::ShapeMismatch => "length mismatch".to_string(),
            Error::MalformedMatrix => "malformed matrix".to_string(),
            Error::LengthInvariantViolated => "length invariant violated".to_string(),
            Error::InitializationFailed => "accelerator initialization failed".to_string(),
            Error::AcceleratorFailure { code: _, message } => message.clone(),
            Error::WitnessShapeMismatch => "invalid witness size".to_string(),
        }
    }
}

} // verus!
