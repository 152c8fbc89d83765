//! The failure reasons that decoding and grid mutation can report.

use vstd::prelude::*;

verus! {

/// Why a decode or a bounds-checked mutation failed.
#[derive(Debug, Clone, Copy, PartialEq, Eq, Structural)]
pub enum Error {
    /// The first non-comment header line is not the two-byte "P6" magic.
    InvalidSignature,
    /// A header field is present but does not parse as the expected
    /// non-negative decimal integer, or the header never fully resolves.
    InvalidFormat,
    /// The byte stream ends before a required header field or delimiter.
    UnexpectedEof,
    /// A pixel write targets coordinates outside the grid.
    OutOfBounds,
    /// The surrounding program failed to read the underlying bytes.
    IoError,
}

impl Error {
    /// A human-readable description of the failure.
    pub fn message(&self) -> (r: &'static str)
        ensures
            r@ == (match self {
                Error::InvalidSignature => "Invalid signature!"@,
                Error::InvalidFormat => "Invalid file format!"@,
                Error::UnexpectedEof => "Unexpected end of file!"@,
                Error::OutOfBounds => "Pixel position is out of bounds!"@,
                Error::IoError => "I/O error!"@,
            }),
    {
        match self {
            Error::InvalidSignature => "Invalid signature!",
            Error::InvalidFormat => "Invalid file format!",
            Error::UnexpectedEof => "Unexpected end of file!",
            Error::OutOfBounds => "Pixel position is out of bounds!",
            Error::IoError => "I/O error!",
        }
    }
}

} // verus!
