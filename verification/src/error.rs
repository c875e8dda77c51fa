//! The conditions under which decoding, verifying or writing a record fails.

use vstd::prelude::*;

verus! {

/// Failure of an operation on records or archives.
#[derive(Debug, Clone, Copy, PartialEq, Eq, Hash, Structural)]
pub enum WarcError {
    /// A digest header names an algorithm other than `sha1` and `md5`.
    UnsupportedAlgorithm,
    /// The data ends before the declared length of a record body.
    UnexpectedEof,
    /// The body of the record does not have the declared length.
    StaleRecord,
}

impl WarcError {
    /// The wording of each failure.
    pub open spec fn wording(self) -> Seq<char> {
        match self {
            WarcError::UnsupportedAlgorithm => "unsupported hash algorithm"@,
            WarcError::UnexpectedEof => "unexpected end of data in record body"@,
            WarcError::StaleRecord => "record body does not match its declared length"@,
        }
    }

    /// A short description of the failure.
    pub fn message(&self) -> (text: &'static str)
        ensures
            text@ == self.wording(),
    {
        match self {
            WarcError::UnsupportedAlgorithm => "unsupported hash algorithm",
            WarcError::UnexpectedEof => "unexpected end of data in record body",
            WarcError::StaleRecord => "record body does not match its declared length",
        }
    }
}

} // verus!
