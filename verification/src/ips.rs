//! The patch container: decoding it from bytes and applying it to a
//! target image.

use crate::decoder::{decode_next, ByteCursor, Outcome};
use crate::bytes::same_bytes;
use crate::error::PatchError;
use crate::format::{
    after_records, encode_records, parse_container, parse_records, MAGIC, TERMINATOR,
};
use crate::model::{apply_records, IpsView, RecordView};
use crate::record::Record;
use crate::rom::Rom;
use crate::theorems::{
    lemma_apply_error_persists, lemma_apply_keeps_length, lemma_encoding_of_decoded,
};
use vstd::prelude::*;

verus! {

/// The models of a run of records, in order.
pub open spec fn record_views(records: Seq<Record>) -> Seq<RecordView> {
    records.map_values(|record: Record| record@)
}

/// A decoded patch: the magic tag, the records in stream order, and the
/// terminator that ended the stream.
#[derive(Debug, PartialEq, Eq)]
pub struct Ips {
    magic: [u8; 5],
    records: Vec<Record>,
    terminator: [u8; 3],
}

impl View for Ips {
    type V = IpsView;

    closed spec fn view(&self) -> IpsView {
        IpsView {
            magic: self.magic@,
            records: record_views(self.records@),
            terminator: self.terminator@,
        }
    }
}

impl<'a> TryFrom<&'a [u8]> for Ips {
    type Error = PatchError;

    /// Decodes a whole patch file, as [`Ips::decode`] does.
    fn try_from(buffer: &'a [u8]) -> (decoded: Result<Ips, PatchError>)
        ensures
            match decoded {
                Ok(ips) => parse_container(buffer@) == Ok::<IpsView, PatchError>(ips@),
                Err(e) => parse_container(buffer@) == Err::<IpsView, PatchError>(e),
            },
    {
        Ips::decode(buffer)
    }
}

/// The conversion is specified by the contract of `try_from` itself, over
/// the view of the container. An `Ips` cannot be written down in ghost
/// code, so the trait's own way of stating the result is switched off.
impl<'a> vstd::std_specs::convert::TryFromSpecImpl<&'a [u8]> for Ips {
    open spec fn obeys_try_from_spec() -> bool {
        false
    }

    open spec fn try_from_spec(buffer: &'a [u8]) -> Result<Ips, PatchError> {
        arbitrary()
    }
}

impl Ips {
    /// Puts a container together from its parts.
    pub fn new(magic: [u8; 5], records: Vec<Record>, terminator: [u8; 3]) -> (ips: Self)
        ensures
            ips@ == (IpsView {
                magic: magic@,
                records: record_views(records@),
                terminator: terminator@,
            }),
    {
        Ips { magic, records, terminator }
    }

    /// The magic tag the container was made with.
    pub fn magic(&self) -> (magic: [u8; 5])
        ensures
            magic@ == self@.magic,
    {
        self.magic
    }

    /// The records, in stream order.
    pub fn records(&self) -> (records: &Vec<Record>)
        ensures
            record_views(records@) == self@.records,
    {
        &self.records
    }

    /// The terminator the container was made with.
    pub fn terminator(&self) -> (terminator: [u8; 3])
        ensures
            terminator@ == self@.terminator,
    {
        self.terminator
    }

    /// Decodes a whole patch file.
    ///
    /// The bytes must open with the magic tag and hold records up to a
    /// terminator. Bytes after the terminator are ignored. Any error
    /// abandons the decoding: no partial container is ever returned.
    pub fn decode(buffer: &[u8]) -> (decoded: Result<Ips, PatchError>)
        ensures
            match decoded {
                Ok(ips) => {
                    &&& parse_container(buffer@) == Ok::<IpsView, PatchError>(ips@)
                    &&& ips@.well_formed()
                    &&& ips@.encoding().len() <= buffer@.len()
                    &&& ips@.encoding() == buffer@.take(ips@.encoding().len() as int)
                },
                Err(e) => parse_container(buffer@) == Err::<IpsView, PatchError>(e),
            },
            buffer@.len() < 5 ==> decoded == Err::<Ips, PatchError>(PatchError::MissingHeader),
            buffer@.len() >= 5 && buffer@.subrange(0, 5) != MAGIC@ ==> decoded == Err::<
                Ips,
                PatchError,
            >(PatchError::InvalidHeader),
    {
        proof {
            lemma_encoding_of_decoded(buffer@);
        }
        let mut cursor = ByteCursor::new(buffer);
        let header = match cursor.take(5) {
            Some(bytes) => bytes,
            None => {
                return Err(PatchError::MissingHeader);
            },
        };
        if !same_bytes(header, MAGIC.as_slice()) {
            return Err(PatchError::InvalidHeader);
        }
        let ghost stream = buffer@.skip(5);
        let mut records: Vec<Record> = Vec::new();
        loop
            invariant_except_break
                cursor.consumed() >= 5,
                parse_records(stream) == after_records(
                    record_views(records@),
                    (cursor.consumed() - 5) as nat,
                    parse_records(cursor.remaining()),
                ),
            invariant
                parse_container(buffer@) == match parse_records(stream) {
                    Err(e) => Err::<IpsView, PatchError>(e),
                    Ok((records, _)) => Ok(
                        IpsView { magic: MAGIC@, records, terminator: TERMINATOR@ },
                    ),
                },
            ensures
                parse_records(stream) matches Ok((all, _)) && all == record_views(records@),
            decreases cursor.remaining().len(),
        {
            let ghost decoded_before = record_views(records@);
            match decode_next(&mut cursor) {
                Err(e) => {
                    return Err(e);
                },
                Ok(Outcome::Terminator) => {
                    break ;
                },
                Ok(Outcome::Record(record)) => {
                    records.push(record);
                    proof {
                        if let Ok((rest, _)) = parse_records(cursor.remaining()) {
                            assert(decoded_before + (seq![record@] + rest) =~= record_views(
                                records@,
                            ) + rest);
                        }
                    }
                },
            }
        }
        Ok(Ips::new(MAGIC, records, TERMINATOR))
    }

    /// The bytes of the container: tag, records, terminator.
    pub fn encode(&self) -> (bytes: Vec<u8>)
        ensures
            bytes@ == self@.encoding(),
    {
        let mut bytes: Vec<u8> = Vec::new();
        bytes.extend_from_slice(self.magic.as_slice());
        let ghost views = self@.records;
        let mut i: usize = 0;
        while i < self.records.len()
            invariant
                i <= self.records.len(),
                views == self@.records,
                bytes@ == self@.magic + encode_records(views.take(i as int)),
            decreases self.records.len() - i,
        {
            self.records[i].encode_into(&mut bytes);
            proof {
                assert(views.take(i + 1).drop_last() =~= views.take(i as int));
            }
            i += 1;
        }
        assert(views.take(i as int) =~= views);
        bytes.extend_from_slice(self.terminator.as_slice());
        bytes
    }

    /// Writes every record over the image, in stream order, and hands back
    /// the patched image.
    ///
    /// Later records overwrite earlier ones where their ranges overlap. The
    /// first record that does not fit the image ends the run: its error is
    /// returned, and no image. The extension of the image is passed on as
    /// it is, and the image keeps its length.
    pub fn apply_patch(self, game: Rom) -> (patched: Result<Rom, PatchError>)
        ensures
            match patched {
                Ok(rom) => {
                    &&& apply_records(self@.records, game.data@) == Ok::<Seq<u8>, PatchError>(
                        rom.data@,
                    )
                    &&& rom.extension == game.extension
                    &&& rom.data@.len() == game.data@.len()
                },
                Err(e) => apply_records(self@.records, game.data@) == Err::<Seq<u8>, PatchError>(e),
            },
            self@.records.len() == 0 ==> (patched matches Ok(rom) && rom.data@ == game.data@),
    {
        let ghost unpatched = game.data@;
        let ghost views = self@.records;
        let Rom { extension, data } = game;
        let mut data = data;
        let mut i: usize = 0;
        while i < self.records.len()
            invariant
                i <= self.records.len(),
                views == self@.records,
                unpatched == game.data@,
                apply_records(views.take(i as int), unpatched) == Ok::<Seq<u8>, PatchError>(data@),
            decreases self.records.len() - i,
        {
            let applied = self.records[i].apply_to(&mut data);
            proof {
                assert(views.take(i + 1).drop_last() =~= views.take(i as int));
                lemma_apply_keeps_length(views.take(i as int), unpatched);
            }
            match applied {
                Ok(()) => {},
                Err(e) => {
                    proof {
                        lemma_apply_error_persists(views, unpatched, i + 1);
                    }
                    return Err(e);
                },
            }
            i += 1;
        }
        proof {
            assert(views.take(i as int) =~= views);
            lemma_apply_keeps_length(views, unpatched);
        }
        Ok(Rom { extension, data })
    }
}

} // verus!
