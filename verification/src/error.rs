//! Errors reported by decoding and patch application.

use vstd::prelude::*;

verus! {

/// The part of a record that was being read when the input ran out.
#[derive(Clone, Copy, Debug, PartialEq, Eq, Structural)]
pub enum RecordField {
    /// The three-byte target offset (or the terminator in its place).
    Offset,
    /// The two-byte payload size.
    Size,
    /// The literal payload bytes.
    Payload,
    /// The two-byte repeat count of a run-length record.
    RunCount,
    /// The repeated byte of a run-length record.
    RunValue,
}

/// Why a patch could not be decoded or applied.
#[derive(Clone, Copy, Debug, PartialEq, Eq, Structural)]
pub enum PatchError {
    /// The input is shorter than the magic tag.
    MissingHeader,
    /// The input does not start with the magic tag.
    InvalidHeader,
    /// The input ended in the middle of a record, or before the terminator.
    TruncatedRecord { field: RecordField },
    /// A literal payload does not have the length declared for it.
    InvalidRecordLength { declared: u16, actual: usize },
    /// A record writes past the end of the target buffer.
    OutOfBounds { offset: u32, length: u16 },
}

impl PatchError {
    /// A short, fixed description of the error.
    pub fn message(&self) -> (text: &'static str)
        ensures
            text@ == match *self {
                PatchError::MissingHeader => "missing header"@,
                PatchError::InvalidHeader => "invalid header"@,
                PatchError::TruncatedRecord { .. } => "truncated record"@,
                PatchError::InvalidRecordLength { .. } => "data and length do not match in record"@,
                PatchError::OutOfBounds { .. } => "record does not fit in the target"@,
            },
    {
        match self {
            PatchError::MissingHeader => "missing header",
            PatchError::InvalidHeader => "invalid header",
            PatchError::TruncatedRecord { .. } => "truncated record",
            PatchError::InvalidRecordLength { .. } => "data and length do not match in record",
            PatchError::OutOfBounds { .. } => "record does not fit in the target",
        }
    }
}

} // verus!
