//! Patch records: where to write, and what.

use crate::bytes::{be_u24, lemma_u24_write_read, read_u24_be, write_u16_be};
use crate::error::PatchError;
use crate::model::{PayloadView, RecordView};
use vstd::prelude::*;

verus! {

/// What a record writes.
#[derive(Debug, PartialEq, Eq)]
pub enum Payload {
    /// These bytes, verbatim.
    Literal(Vec<u8>),
    /// The byte `.1`, repeated `.0` times.
    RunLength(u16, u8),
}

impl View for Payload {
    type V = PayloadView;

    open spec fn view(&self) -> PayloadView {
        match *self {
            Payload::Literal(bytes) => PayloadView::Literal(bytes@),
            Payload::RunLength(count, value) => PayloadView::RunLength(count as nat, value),
        }
    }
}

/// One instruction of a patch: a target offset, kept as the three bytes
/// in which the stream carries it, and a payload to write there.
///
/// Every `Record` is well formed: a literal payload is never empty and
/// never longer than its two size bytes can say.
#[derive(Debug, PartialEq, Eq)]
pub struct Record {
    offset: [u8; 3],
    payload: Payload,
}

impl View for Record {
    type V = RecordView;

    closed spec fn view(&self) -> RecordView {
        RecordView {
            target_offset: be_u24(self.offset[0], self.offset[1], self.offset[2]),
            payload: self.payload@,
        }
    }
}

impl Record {
    /// Holds of every `Record`: its payload is well formed.
    #[verifier::type_invariant]
    spec fn inv(self) -> bool {
        self.payload@.well_formed()
    }

    /// Makes a literal record that writes `data` at the offset whose
    /// big-endian bytes are `offset`.
    ///
    /// `size` is the length declared for the payload. It must be the length
    /// of `data`, and it must not be zero, which the stream reserves for
    /// run-length records; otherwise no record is made.
    pub fn new(size: u16, offset: [u8; 3], data: Vec<u8>) -> (made: Result<Record, PatchError>)
        ensures
            match made {
                Ok(record) => size != 0 && data@.len() == size && record@ == (RecordView {
                    target_offset: be_u24(offset@[0], offset@[1], offset@[2]),
                    payload: PayloadView::Literal(data@),
                }),
                Err(e) => (size == 0 || data@.len() != size) && e == (PatchError::InvalidRecordLength {
                    declared: size,
                    actual: data.len(),
                }),
            },
    {
        if size == 0 || data.len() != size as usize {
            return Err(PatchError::InvalidRecordLength { declared: size, actual: data.len() });
        }
        Ok(Record { offset, payload: Payload::Literal(data) })
    }

    /// Makes a run-length record that writes `value` `count` times at the
    /// offset whose big-endian bytes are `offset`.
    pub fn run_length(offset: [u8; 3], count: u16, value: u8) -> (record: Record)
        ensures
            record@ == (RecordView {
                target_offset: be_u24(offset@[0], offset@[1], offset@[2]),
                payload: PayloadView::RunLength(count as nat, value),
            }),
    {
        Record { offset, payload: Payload::RunLength(count, value) }
    }

    /// The three bytes that carry the target offset, most significant first.
    pub fn offset_bytes(&self) -> (bytes: [u8; 3])
        ensures
            be_u24(bytes@[0], bytes@[1], bytes@[2]) == self@.target_offset,
    {
        self.offset
    }

    /// The payload.
    pub fn payload(&self) -> (payload: &Payload)
        ensures
            payload@ == self@.payload,
            self@.well_formed(),
    {
        proof {
            use_type_invariant(self);
        }
        &self.payload
    }

    /// Number of bytes the record writes.
    pub fn length(&self) -> (n: u16)
        ensures
            n == self@.length(),
    {
        proof {
            use_type_invariant(self);
        }
        match &self.payload {
            Payload::Literal(bytes) => bytes.len() as u16,
            Payload::RunLength(count, _) => *count,
        }
    }

    /// The record's byte range in the target: the position of its first
    /// byte, and the position just past its last.
    pub fn get_offset(&self) -> (range: (u32, u32))
        ensures
            self@.well_formed(),
            range.0 == self@.target_offset,
            range.1 == self@.end(),
    {
        proof {
            use_type_invariant(self);
        }
        let start = read_u24_be(&self.offset);
        let end = start + self.length() as u32;
        (start, end)
    }

    /// The bytes the record writes, spelled out.
    pub fn data(&self) -> (bytes: Vec<u8>)
        ensures
            bytes@ == self@.materialized(),
    {
        match &self.payload {
            Payload::Literal(bytes) => bytes.clone(),
            Payload::RunLength(count, value) => vec![*value; *count as usize],
        }
    }

    /// Appends to `out` the bytes that carry the record in a stream.
    pub fn encode_into(&self, out: &mut Vec<u8>)
        ensures
            final(out)@ == old(out)@ + self@.encoding(),
    {
        proof {
            use_type_invariant(self);
            lemma_u24_write_read(self.offset[0], self.offset[1], self.offset[2]);
        }
        out.push(self.offset[0]);
        out.push(self.offset[1]);
        out.push(self.offset[2]);
        match &self.payload {
            Payload::Literal(bytes) => {
                let size = write_u16_be(bytes.len() as u16);
                out.push(size[0]);
                out.push(size[1]);
                out.extend_from_slice(bytes.as_slice());
            },
            Payload::RunLength(count, value) => {
                let count = write_u16_be(*count);
                out.push(0);
                out.push(0);
                out.push(count[0]);
                out.push(count[1]);
                out.push(*value);
            },
        }
    }

    /// Writes the record over `target`.
    ///
    /// A record that does not fit is refused, and `target` is left as it was.
    pub fn apply_to(&self, target: &mut Vec<u8>) -> (done: Result<(), PatchError>)
        ensures
            match done {
                Ok(()) => self@.fits(old(target)@.len()) && final(target)@ == self@.applied_to(
                    old(target)@,
                ),
                Err(e) => !self@.fits(old(target)@.len()) && e == self@.out_of_bounds()
                    && final(target)@ == old(target)@,
            },
    {
        let (start, end) = self.get_offset();
        let length = self.length();
        if end as usize > target.len() {
            return Err(PatchError::OutOfBounds { offset: start, length });
        }
        let base = start as usize;
        let ghost before = target@;
        let ghost writes = self@.materialized();
        let mut i: usize = 0;
        while i < length as usize
            invariant
                i <= length,
                length == self@.length(),
                writes == self@.materialized(),
                base == self@.target_offset,
                base + length <= before.len(),
                target@.len() == before.len(),
                forall|j: int|
                    0 <= j < before.len() ==> target@[j] == if base <= j < base + i {
                        writes[j - base]
                    } else {
                        before[j]
                    },
            decreases length - i,
        {
            let byte = match &self.payload {
                Payload::Literal(bytes) => bytes[i],
                Payload::RunLength(_, value) => *value,
            };
            target[base + i] = byte;
            i += 1;
        }
        Ok(())
    }
}

} // verus!
