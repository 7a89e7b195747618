//! Error taxonomy of the decoder. Every error is fatal: decoding stops at the
//! first one, and each variant names the stage that detected it.

use vstd::prelude::*;

verus! {

/// Why a decode run was aborted.
#[derive(Clone, Copy, Debug, PartialEq, Eq, Structural)]
pub enum ArchiveError {
    /// The stream ended inside the fixed-size header.
    TruncatedHeader,
    /// The stream ended inside the index table.
    TruncatedIndex,
    /// The stream ended inside the filename table.
    TruncatedNameTable,
    /// A filename record declared a length of zero, which cannot even hold
    /// the mandatory null terminator.
    InvalidNameLength,
    /// A filename's bytes are not valid UTF-8.
    MalformedName,
    /// A stored path has no usable component left after sanitization.
    EmptyPath,
    /// A payload's declared length exceeds the bytes remaining in the stream.
    TruncatedPayload,
}

impl ArchiveError {
    /// A short human-readable description, naming the stage that failed.
    pub fn describe(&self) -> (r: &'static str)
        ensures
            r@.len() > 0,
    {
        let s = match self {
            ArchiveError::TruncatedHeader => "end of stream inside the archive header",
            ArchiveError::TruncatedIndex => "end of stream inside the index table",
            ArchiveError::TruncatedNameTable => "end of stream inside the filename table",
            ArchiveError::InvalidNameLength => "filename record with a zero length field",
            ArchiveError::MalformedName => "filename is not valid UTF-8",
            ArchiveError::EmptyPath => "stored path has no usable component",
            ArchiveError::TruncatedPayload => "payload is longer than the remaining stream",
        };
        proof {
            reveal_strlit("end of stream inside the archive header");
            reveal_strlit("end of stream inside the index table");
            reveal_strlit("end of stream inside the filename table");
            reveal_strlit("filename record with a zero length field");
            reveal_strlit("filename is not valid UTF-8");
            reveal_strlit("stored path has no usable component");
            reveal_strlit("payload is longer than the remaining stream");
        }
        s
    }
}

} // verus!
