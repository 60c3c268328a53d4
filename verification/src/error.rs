//! Errors reported by the frame codec.

use vstd::prelude::*;

verus! {

/// Why a message could not be turned into a frame.
#[derive(Debug, Clone, Copy, PartialEq, Eq, Structural)]
pub enum SerializerError {
    /// A field, or the whole field block, is longer than a `u32` can count.
    EncodeOverflow,
}

/// Why a byte buffer could not be read as a frame.
#[derive(Debug, Clone, Copy, PartialEq, Eq, Structural)]
pub enum DeserializerError {
    /// The buffer ends before the frame, or a field runs past the field block.
    TruncatedFrame,
    /// The type tag is not one the requested catalog assigns.
    UnknownType,
    /// The stored checksum differs from the CRC-32 of the field block.
    ChecksumMismatch,
    /// A field does not hold valid UTF-8.
    InvalidEncoding,
    /// The field block holds bytes after its last field.
    TrailingBytes,
}

impl SerializerError {
    /// What went wrong, in words.
    pub open spec fn spec_message(&self) -> Seq<char> {
        "A field is too long to be encoded"@
    }

    /// What went wrong, in words.
    pub fn message(&self) -> (text: &'static str)
        ensures
            text@ == self.spec_message(),
    {
        "A field is too long to be encoded"
    }
}

impl DeserializerError {
    /// What went wrong, in words.
    pub open spec fn spec_message(&self) -> Seq<char> {
        match self {
            DeserializerError::TruncatedFrame => "Received an incomplete frame"@,
            DeserializerError::UnknownType => "Received invalid MessageType"@,
            DeserializerError::ChecksumMismatch => "Received a frame with a wrong checksum"@,
            DeserializerError::InvalidEncoding => "Unable to convert to UTF-8"@,
            DeserializerError::TrailingBytes => "Received invalid buffer length"@,
        }
    }

    /// What went wrong, in words.
    pub fn message(&self) -> (text: &'static str)
        ensures
            text@ == self.spec_message(),
    {
        match self {
            DeserializerError::TruncatedFrame => "Received an incomplete frame",
            DeserializerError::UnknownType => "Received invalid MessageType",
            DeserializerError::ChecksumMismatch => "Received a frame with a wrong checksum",
            DeserializerError::InvalidEncoding => "Unable to convert to UTF-8",
            DeserializerError::TrailingBytes => "Received invalid buffer length",
        }
    }
}

} // verus!
