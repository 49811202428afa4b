//! The record decoder: one record, or the terminator, off the front of a
//! byte stream.

use crate::bytes::{read_u16_be, same_bytes};
use crate::error::{PatchError, RecordField};
use crate::format::{next_outcome, OutcomeView, TERMINATOR};
use crate::record::Record;
use vstd::prelude::*;
use vstd::slice::slice_to_vec;

verus! {

/// A forward-only reading position in a byte buffer.
pub struct ByteCursor<'a> {
    bytes: &'a [u8],
    position: usize,
}

impl<'a> ByteCursor<'a> {
    /// Holds of every cursor: it never stands past the end of its buffer.
    #[verifier::type_invariant]
    spec fn inv(self) -> bool {
        self.position <= self.bytes@.len()
    }

    /// The bytes not yet read.
    pub closed spec fn remaining(&self) -> Seq<u8> {
        self.bytes@.skip(self.position as int)
    }

    /// The number of bytes read so far.
    pub closed spec fn consumed(&self) -> nat {
        self.position as nat
    }

    /// A cursor at the start of `bytes`.
    pub fn new(bytes: &'a [u8]) -> (cursor: Self)
        ensures
            cursor.remaining() == bytes@,
            cursor.consumed() == 0,
    {
        let cursor = ByteCursor { bytes, position: 0 };
        cursor
    }

    /// The number of bytes read so far.
    pub fn position(&self) -> (position: usize)
        ensures
            position == self.consumed(),
    {
        self.position
    }

    /// Reads exactly `n` bytes and moves past them. When fewer than `n`
    /// bytes remain, nothing is read and the cursor stays where it is.
    pub fn take(&mut self, n: usize) -> (taken: Option<&'a [u8]>)
        ensures
            match taken {
                Some(bytes) => {
                    &&& n <= old(self).remaining().len()
                    &&& bytes@ == old(self).remaining().take(n as int)
                    &&& final(self).remaining() == old(self).remaining().skip(n as int)
                    &&& final(self).consumed() == old(self).consumed() + n
                },
                None => n > old(self).remaining().len() && *final(self) == *old(self),
            },
    {
        proof {
            use_type_invariant(&*self);
        }
        if n > self.bytes.len() - self.position {
            return None;
        }
        let start = self.position;
        let taken = &self.bytes[start..start + n];
        self.position = start + n;
        Some(taken)
    }
}

/// What the decoder found at the head of the stream.
#[derive(Debug, PartialEq, Eq)]
pub enum Outcome {
    /// A record.
    Record(Record),
    /// The terminator: the stream ends here, as it should.
    Terminator,
}

impl View for Outcome {
    type V = OutcomeView;

    open spec fn view(&self) -> OutcomeView {
        match *self {
            Outcome::Record(record) => OutcomeView::Record(record@),
            Outcome::Terminator => OutcomeView::Terminator,
        }
    }
}

/// Decodes what stands at the cursor, a record or the terminator, and
/// moves the cursor past it.
///
/// When the input ends inside the item, the error names the field that
/// was being read; the cursor is then left somewhere inside the item.
pub fn decode_next(cursor: &mut ByteCursor) -> (next: Result<Outcome, PatchError>)
    ensures
        match next {
            Ok(outcome) => {
                &&& next_outcome(old(cursor).remaining()) matches Ok((expected, used))
                &&& outcome@ == expected
                &&& final(cursor).remaining() == old(cursor).remaining().skip(used as int)
                &&& final(cursor).consumed() == old(cursor).consumed() + used
            },
            Err(e) => next_outcome(old(cursor).remaining()) == Err::<
                (OutcomeView, nat),
                PatchError,
            >(e),
        },
{
    let ghost stream = cursor.remaining();
    let offset = match cursor.take(3) {
        Some(bytes) => [bytes[0], bytes[1], bytes[2]],
        None => {
            return Err(PatchError::TruncatedRecord { field: RecordField::Offset });
        },
    };
    assert(offset@ =~= stream.subrange(0, 3));
    if same_bytes(offset.as_slice(), TERMINATOR.as_slice()) {
        return Ok(Outcome::Terminator);
    }
    let size = match cursor.take(2) {
        Some(bytes) => read_u16_be(bytes[0], bytes[1]),
        None => {
            return Err(PatchError::TruncatedRecord { field: RecordField::Size });
        },
    };
    if size != 0 {
        let data = match cursor.take(size as usize) {
            Some(bytes) => slice_to_vec(bytes),
            None => {
                return Err(PatchError::TruncatedRecord { field: RecordField::Payload });
            },
        };
        assert(data@ =~= stream.subrange(5, 5 + size as int));
        // The payload was read with the declared size, so the record is made.
        match Record::new(size, offset, data) {
            Ok(record) => Ok(Outcome::Record(record)),
            Err(e) => Err(e),
        }
    } else {
        let count = match cursor.take(2) {
            Some(bytes) => read_u16_be(bytes[0], bytes[1]),
            None => {
                return Err(PatchError::TruncatedRecord { field: RecordField::RunCount });
            },
        };
        let value = match cursor.take(1) {
            Some(bytes) => bytes[0],
            None => {
                return Err(PatchError::TruncatedRecord { field: RecordField::RunValue });
            },
        };
        Ok(Outcome::Record(Record::run_length(offset, count, value)))
    }
}

} // verus!
