//! The failures this library reports.

use vstd::prelude::*;

verus! {

/// Why an operation refused its input.
#[derive(Clone, Copy, Debug, PartialEq, Eq, Structural)]
pub enum Error {
    /// Thirty-two bytes that are not the canonical encoding of a group element.
    EncodingError,
    /// A covariate occurs twice in an interpolation set, or zero was to be inverted.
    DivisionByZero,
    /// Bytes that cannot be read as a range proof.
    ProofDeserializationError,
    /// Paired lists of different lengths, or a batch whose size no generator set serves.
    DimensionMismatch,
    /// A value that does not fit the requested bit width, or a width that cannot be proved.
    InvalidRangeError,
    /// An empty list where at least one element is needed.
    EmptyInputError,
}

impl Error {
    /// A short description for callers that report failures as text.
    pub fn message(&self) -> (text: &'static str)
        ensures
            text@ == error_text(*self)@,
    {
        match self {
            Error::EncodingError => "bytes do not encode a group element",
            Error::DivisionByZero => "division by zero in the scalar field",
            Error::ProofDeserializationError => "proof bytes are malformed",
            Error::DimensionMismatch => "list lengths do not match",
            Error::InvalidRangeError => "value does not fit the requested bit width",
            Error::EmptyInputError => "input list is empty",
        }
    }
}

/// The text that [`Error::message`] returns for each failure.
pub open spec fn error_text(e: Error) -> &'static str {
    match e {
        Error::EncodingError => "bytes do not encode a group element",
        Error::DivisionByZero => "division by zero in the scalar field",
        Error::ProofDeserializationError => "proof bytes are malformed",
        Error::DimensionMismatch => "list lengths do not match",
        Error::InvalidRangeError => "value does not fit the requested bit width",
        Error::EmptyInputError => "input list is empty",
    }
}

} // verus!
