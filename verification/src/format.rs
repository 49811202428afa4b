//! The container format, as a grammar over byte sequences.
//!
//! A container is the magic tag, then records, then the terminator. A
//! record is laid out as follows:
//!
//! | field      | bytes | meaning                                        |
//! |------------|-------|------------------------------------------------|
//! | offset     | 3     | target offset, big-endian                      |
//! | size       | 2     | payload length, big-endian; zero marks a run   |
//! | payload    | size  | literal bytes (when size is not zero)          |
//! | run count  | 2     | repeat count, big-endian (when size is zero)   |
//! | run value  | 1     | the repeated byte (when size is zero)          |
//!
//! The grammar is given in both directions: `encoding` writes a value out,
//! `next_outcome`, `parse_records` and `parse_container` read one in.

use crate::bytes::{be_u16, be_u24, u16_be_bytes, u24_be_bytes};
use crate::error::{PatchError, RecordField};
use crate::model::{IpsView, PayloadView, RecordView};
use vstd::prelude::*;

verus! {

/// The magic tag that opens a container: the ASCII letters `PATCH`.
pub const MAGIC: [u8; 5] = [0x50, 0x41, 0x54, 0x43, 0x48];

/// The sentinel that closes the record stream: the ASCII letters `EOF`.
pub const TERMINATOR: [u8; 3] = [0x45, 0x4F, 0x46];

/// What stands at the head of a record stream.
pub enum OutcomeView {
    /// A record.
    Record(RecordView),
    /// The terminator, which ends the stream.
    Terminator,
}

impl RecordView {
    /// The bytes that carry the record in a stream.
    pub open spec fn encoding(self) -> Seq<u8> {
        match self.payload {
            PayloadView::Literal(bytes) => u24_be_bytes(self.target_offset) + u16_be_bytes(
                bytes.len(),
            ) + bytes,
            PayloadView::RunLength(count, value) => u24_be_bytes(self.target_offset)
                + u16_be_bytes(0) + u16_be_bytes(count) + seq![value],
        }
    }

    /// Whether a stream can carry the record: it is well formed, and its
    /// offset bytes do not spell the terminator.
    pub open spec fn encodable(self) -> bool {
        &&& self.well_formed()
        &&& u24_be_bytes(self.target_offset) != TERMINATOR@
    }
}

/// The bytes that carry `records` in a stream, one record after another.
pub open spec fn encode_records(records: Seq<RecordView>) -> Seq<u8>
    decreases records.len(),
{
    if records.len() == 0 {
        Seq::empty()
    } else {
        encode_records(records.drop_last()) + records.last().encoding()
    }
}

impl IpsView {
    /// The bytes of the container: tag, records, terminator.
    pub open spec fn encoding(self) -> Seq<u8> {
        self.magic + encode_records(self.records) + self.terminator
    }

    /// Whether the container is one that decoding can produce: it carries
    /// the expected tag and terminator, and a stream can carry each record.
    pub open spec fn well_formed(self) -> bool {
        &&& self.magic == MAGIC@
        &&& self.terminator == TERMINATOR@
        &&& forall|i: int| 0 <= i < self.records.len() ==> (#[trigger] self.records[i]).encodable()
    }
}

/// The first item of the record stream `s`, and the number of bytes it
/// takes up; or the field at which `s` ends too early.
pub open spec fn next_outcome(s: Seq<u8>) -> Result<(OutcomeView, nat), PatchError> {
    if s.len() < 3 {
        Err(PatchError::TruncatedRecord { field: RecordField::Offset })
    } else if s.subrange(0, 3) == TERMINATOR@ {
        Ok((OutcomeView::Terminator, 3))
    } else if s.len() < 5 {
        Err(PatchError::TruncatedRecord { field: RecordField::Size })
    } else {
        let target_offset = be_u24(s[0], s[1], s[2]);
        let size = be_u16(s[3], s[4]);
        if size != 0 {
            if s.len() < 5 + size {
                Err(PatchError::TruncatedRecord { field: RecordField::Payload })
            } else {
                let payload = PayloadView::Literal(s.subrange(5, 5 + size as int));
                Ok((OutcomeView::Record(RecordView { target_offset, payload }), 5 + size))
            }
        } else if s.len() < 7 {
            Err(PatchError::TruncatedRecord { field: RecordField::RunCount })
        } else if s.len() < 8 {
            Err(PatchError::TruncatedRecord { field: RecordField::RunValue })
        } else {
            let payload = PayloadView::RunLength(be_u16(s[5], s[6]), s[7]);
            Ok((OutcomeView::Record(RecordView { target_offset, payload }), 8))
        }
    }
}

/// The outcome of decoding a stream whose first records, `front`, took
/// `used` bytes, and whose remainder decodes to `parsed`.
pub open spec fn after_records(
    front: Seq<RecordView>,
    used: nat,
    parsed: Result<(Seq<RecordView>, nat), PatchError>,
) -> Result<(Seq<RecordView>, nat), PatchError> {
    match parsed {
        Ok((rest, more)) => Ok((front + rest, used + more)),
        Err(e) => Err(e),
    }
}

/// The records that the stream `s` holds up to its terminator, and the
/// number of bytes read, terminator included; or the first error met.
/// Whatever follows the terminator is not looked at.
pub open spec fn parse_records(s: Seq<u8>) -> Result<(Seq<RecordView>, nat), PatchError>
    decreases s.len(),
{
    match next_outcome(s) {
        Err(e) => Err(e),
        Ok((OutcomeView::Terminator, used)) => Ok((Seq::empty(), used)),
        Ok((OutcomeView::Record(record), used)) => after_records(
            seq![record],
            used,
            parse_records(s.skip(used as int)),
        ),
    }
}

/// The container that the bytes `s` hold, or why they hold none.
pub open spec fn parse_container(s: Seq<u8>) -> Result<IpsView, PatchError> {
    if s.len() < 5 {
        Err(PatchError::MissingHeader)
    } else if s.subrange(0, 5) != MAGIC@ {
        Err(PatchError::InvalidHeader)
    } else {
        match parse_records(s.skip(5)) {
            Err(e) => Err(e),
            Ok((records, _)) => Ok(
                IpsView { magic: MAGIC@, records, terminator: TERMINATOR@ },
            ),
        }
    }
}

} // verus!
