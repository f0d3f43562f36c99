//! The error kinds the library reports: a marker or terminator absent during
//! extraction, malformed payload data, a failed file write, and a bad
//! command-line input.

use vstd::prelude::*;

verus! {

/// Every failure the pipeline can report to a caller.
#[derive(Clone, Copy, Debug, PartialEq, Eq, Structural)]
pub enum TotemError {
    /// The identifier marker, or its closing quote, is absent from the input.
    NotFound,
    /// The input is not well-formed payload data, or a required payload field
    /// is missing.
    DecodeError,
    /// The destination file could not be created or written.
    IOError,
    /// A command-line argument is missing or invalid.
    ArgumentError,
}

impl TotemError {
    /// A short human-readable description, in place of a `Display` impl.
    pub fn message(&self) -> (r: &'static str)
        ensures
            r@ == self.spec_message(),
    {
        match self {
            TotemError::NotFound => "could not find the requested token",
            TotemError::DecodeError => "could not decode the response payload",
            TotemError::IOError => "could not write the output file",
            TotemError::ArgumentError => "missing or invalid argument",
        }
    }

    pub open spec fn spec_message(&self) -> Seq<char> {
        match self {
            TotemError::NotFound => "could not find the requested token"@,
            TotemError::DecodeError => "could not decode the response payload"@,
            TotemError::IOError => "could not write the output file"@,
            TotemError::ArgumentError => "missing or invalid argument"@,
        }
    }
}

} // verus!
