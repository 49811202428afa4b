//! The mathematical model of records and of their effect on a target.
//!
//! Everything here is ghost code over sequences of bytes and unbounded
//! naturals. The executable types view themselves as these values, and
//! the contracts of the executable functions are stated over them.

use crate::error::PatchError;
use vstd::prelude::*;

verus! {

/// Largest target offset that fits in the three offset bytes.
pub const MAX_OFFSET: u32 = 0xFF_FFFF;

/// Largest payload length that fits in the two size bytes.
pub const MAX_LENGTH: u16 = 0xFFFF;

/// What a record writes.
pub enum PayloadView {
    /// These bytes, verbatim.
    Literal(Seq<u8>),
    /// The byte `.1`, repeated `.0` times.
    RunLength(nat, u8),
}

impl PayloadView {
    /// Number of bytes the payload writes.
    pub open spec fn length(self) -> nat {
        match self {
            PayloadView::Literal(bytes) => bytes.len(),
            PayloadView::RunLength(count, _) => count,
        }
    }

    /// The bytes the payload writes, spelled out.
    pub open spec fn materialized(self) -> Seq<u8> {
        match self {
            PayloadView::Literal(bytes) => bytes,
            PayloadView::RunLength(count, value) => Seq::new(count, |i: int| value),
        }
    }

    /// A literal payload holds between one and `MAX_LENGTH` bytes; a run
    /// repeats its byte at most `MAX_LENGTH` times, possibly not at all.
    pub open spec fn well_formed(self) -> bool {
        match self {
            PayloadView::Literal(bytes) => 1 <= bytes.len() <= MAX_LENGTH,
            PayloadView::RunLength(count, _) => count <= MAX_LENGTH,
        }
    }
}

/// One instruction of a patch: write `payload` at `target_offset`.
pub struct RecordView {
    pub target_offset: nat,
    pub payload: PayloadView,
}

impl RecordView {
    /// The offset fits in three bytes, and the payload is well formed.
    pub open spec fn well_formed(self) -> bool {
        &&& self.target_offset <= MAX_OFFSET
        &&& self.payload.well_formed()
    }

    /// Number of bytes the record writes.
    pub open spec fn length(self) -> nat {
        self.payload.length()
    }

    /// The bytes the record writes, spelled out.
    pub open spec fn materialized(self) -> Seq<u8> {
        self.payload.materialized()
    }

    /// First position past the bytes the record writes.
    pub open spec fn end(self) -> nat {
        self.target_offset + self.length()
    }

    /// Whether position `i` of a target lies in the record's byte range.
    pub open spec fn covers(self, i: int) -> bool {
        self.target_offset <= i < self.end()
    }

    /// Whether the record's byte range lies inside a target of `target_len` bytes.
    pub open spec fn fits(self, target_len: nat) -> bool {
        self.end() <= target_len
    }

    /// The target after the record has been written over it. Positions the
    /// record covers take the record's bytes; all others keep theirs.
    pub open spec fn applied_to(self, target: Seq<u8>) -> Seq<u8> {
        Seq::new(
            target.len(),
            |i: int|
                if self.covers(i) {
                    self.materialized()[i - self.target_offset]
                } else {
                    target[i]
                },
        )
    }

    /// The error reported when the record does not fit its target.
    pub open spec fn out_of_bounds(self) -> PatchError {
        PatchError::OutOfBounds {
            offset: self.target_offset as u32,
            length: self.length() as u16,
        }
    }
}

/// A patch container: the magic tag, the records in stream order, and the
/// terminator that ended the stream.
pub struct IpsView {
    pub magic: Seq<u8>,
    pub records: Seq<RecordView>,
    pub terminator: Seq<u8>,
}

/// The result of writing `records` over `target`, first to last.
///
/// The first record that does not fit ends the run with its error; records
/// after it play no part.
pub open spec fn apply_records(records: Seq<RecordView>, target: Seq<u8>) -> Result<
    Seq<u8>,
    PatchError,
>
    decreases records.len(),
{
    if records.len() == 0 {
        Ok(target)
    } else {
        match apply_records(records.drop_last(), target) {
            Ok(patched) => if records.last().fits(patched.len()) {
                Ok(records.last().applied_to(patched))
            } else {
                Err(records.last().out_of_bounds())
            },
            Err(e) => Err(e),
        }
    }
}

} // verus!
