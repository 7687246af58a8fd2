//! The ways in which reading or editing a PNG file can fail.

use vstd::prelude::*;

verus! {

/// Every failure that this crate reports.
#[derive(Clone, Copy, Debug, PartialEq, Eq, Structural)]
pub enum PngError {
    /// A chunk type holds a byte that is not an ASCII letter.
    InvalidTypeBytes,
    /// The text given for a chunk type is not four bytes long.
    WrongLength,
    /// A chunk announces more payload bytes than its buffer holds.
    TruncatedData,
    /// Bytes are left over behind the checksum of a chunk.
    TrailingBytes,
    /// The buffer ends inside the length, type or checksum field of a chunk.
    IncompleteChunk,
    /// The stored checksum differs from the one computed over type and payload.
    ChecksumMismatch,
    /// The file does not start with the PNG signature.
    BadSignature,
    /// No chunk of the requested type is present.
    ChunkNotFound,
    /// The payload was requested as text but is not valid UTF-8.
    NotUtf8,
}

} // verus!
