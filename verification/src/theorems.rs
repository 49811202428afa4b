//! What holds of the format and of patch application, for all inputs.
//!
//! The statements are over the model: byte sequences, record values and
//! the grammar of the `format` module. The executable functions are tied
//! to the same model by their contracts.

use crate::bytes::{
    be_u16, lemma_u16_read_write, lemma_u16_write_read, lemma_u24_read_write,
    lemma_u24_write_read, u16_be_bytes, u24_be_bytes,
};
use crate::error::PatchError;
use crate::format::{
    after_records, encode_records, next_outcome, parse_container, parse_records, OutcomeView,
    MAGIC, TERMINATOR,
};
use crate::model::{apply_records, IpsView, PayloadView, RecordView};
use vstd::prelude::*;

verus! {

// ---------------------------------------------------------------------
// Records
// ---------------------------------------------------------------------

/// A payload spells out exactly as many bytes as its length says: the
/// stored bytes of a literal, `count` copies of the byte of a run.
pub proof fn lemma_materialized_length(payload: PayloadView)
    ensures
        payload.materialized().len() == payload.length(),
        payload matches PayloadView::Literal(bytes) ==> payload.materialized() == bytes,
        payload matches PayloadView::RunLength(count, value) ==> forall|i: int|
            0 <= i < count ==> payload.materialized()[i] == value,
{
}

/// The length declared for the record at the head of `s`: its size field,
/// or, where that is zero, its run count.
pub open spec fn declared_length(s: Seq<u8>) -> nat {
    if be_u16(s[3], s[4]) != 0 {
        be_u16(s[3], s[4])
    } else {
        be_u16(s[5], s[6])
    }
}

/// A decoded record writes exactly as many bytes as the stream declared
/// for it.
pub proof fn lemma_decoded_length_is_declared(s: Seq<u8>)
    ensures
        next_outcome(s) matches Ok((OutcomeView::Record(record), _)) ==> {
            &&& record.length() == declared_length(s)
            &&& record.materialized().len() == declared_length(s)
        },
{
}

// ---------------------------------------------------------------------
// Decoding and encoding
// ---------------------------------------------------------------------

/// Decoding one item is sound: a decoded record can be carried by a
/// stream, and the bytes read are exactly its encoding; a decoded
/// terminator stands for the three terminator bytes.
pub proof fn lemma_next_outcome_sound(s: Seq<u8>)
    ensures
        next_outcome(s) matches Ok((outcome, used)) ==> {
            &&& 0 < used <= s.len()
            &&& match outcome {
                OutcomeView::Record(record) => record.encodable() && s.take(used as int)
                    == record.encoding(),
                OutcomeView::Terminator => s.take(used as int) == TERMINATOR@,
            }
        },
{
    if let Ok((OutcomeView::Record(record), _)) = next_outcome(s) {
        lemma_u24_write_read(s[0], s[1], s[2]);
        lemma_u16_write_read(s[3], s[4]);
        assert(u24_be_bytes(record.target_offset) =~= s.subrange(0, 3));
        if record.payload is RunLength {
            lemma_u16_write_read(s[5], s[6]);
        }
    }
}

/// Decoding one item is complete: a stream that starts with the encoding
/// of a record decodes to that record, whatever follows.
pub proof fn lemma_next_outcome_of_encoding(record: RecordView, rest: Seq<u8>)
    requires
        record.encodable(),
    ensures
        next_outcome(record.encoding() + rest) == Ok::<(OutcomeView, nat), PatchError>(
            (OutcomeView::Record(record), record.encoding().len()),
        ),
{
    let s = record.encoding() + rest;
    lemma_u24_read_write(record.target_offset);
    match record.payload {
        PayloadView::Literal(bytes) => {
            lemma_u16_read_write(bytes.len());
            assert(s.subrange(5, 5 + bytes.len() as int) =~= bytes);
        },
        PayloadView::RunLength(count, value) => {
            lemma_u16_read_write(0);
            lemma_u16_read_write(count);
        },
    }
}

/// A stream that starts with the terminator decodes to the terminator.
pub proof fn lemma_next_outcome_of_terminator(rest: Seq<u8>)
    ensures
        next_outcome(TERMINATOR@ + rest) == Ok::<(OutcomeView, nat), PatchError>(
            (OutcomeView::Terminator, 3),
        ),
{
    assert((TERMINATOR@ + rest).subrange(0, 3) =~= TERMINATOR@);
}

/// A run of one record is encoded as that record.
pub proof fn lemma_encode_single_record(record: RecordView)
    ensures
        encode_records(seq![record]) == record.encoding(),
{
    reveal_with_fuel(encode_records, 2);
    assert(seq![record].drop_last() =~= Seq::<RecordView>::empty());
}

/// Encoding two runs of records one after the other is encoding the two
/// runs joined.
pub proof fn lemma_encode_records_concat(front: Seq<RecordView>, back: Seq<RecordView>)
    ensures
        encode_records(front + back) == encode_records(front) + encode_records(back),
    decreases back.len(),
{
    if back.len() > 0 {
        assert((front + back).drop_last() =~= front + back.drop_last());
        lemma_encode_records_concat(front, back.drop_last());
    }
}

/// Decoding a record stream is sound: the records it yields can all be
/// carried by a stream, and the bytes read are exactly their encodings
/// followed by the terminator.
pub proof fn lemma_parse_records_sound(s: Seq<u8>)
    ensures
        parse_records(s) matches Ok((records, used)) ==> {
            &&& used <= s.len()
            &&& s.take(used as int) == encode_records(records) + TERMINATOR@
            &&& forall|i: int| 0 <= i < records.len() ==> (#[trigger] records[i]).encodable()
        },
    decreases s.len(),
{
    lemma_next_outcome_sound(s);
    if let Ok((records, used)) = parse_records(s) {
        if let Ok((OutcomeView::Record(record), first)) = next_outcome(s) {
            let tail = s.skip(first as int);
            lemma_parse_records_sound(tail);
            let (rest, more) = parse_records(tail).unwrap();
            lemma_encode_records_concat(seq![record], rest);
            lemma_encode_single_record(record);
            assert(s.take(used as int) =~= s.take(first as int) + tail.take(more as int));
        }
    }
}

/// `parse_records` under a name that stays folded until it is revealed,
/// so that an induction over records need not look inside the grammar.
#[verifier::opaque]
spec fn parsed(s: Seq<u8>) -> Result<(Seq<RecordView>, nat), PatchError> {
    parse_records(s)
}

/// A record at the head of a stream is decoded first, and the rest of
/// the stream after it.
pub proof fn lemma_parse_records_step(record: RecordView, after: Seq<u8>)
    requires
        record.encodable(),
    ensures
        parse_records(record.encoding() + after) == after_records(
            seq![record],
            record.encoding().len(),
            parse_records(after),
        ),
{
    let s = record.encoding() + after;
    lemma_next_outcome_of_encoding(record, after);
    assert(s.skip(record.encoding().len() as int) =~= after);
}

/// Decoding `front`, then `last`, then the rest is decoding `front` with
/// `last` added, then the rest.
proof fn lemma_after_records_push(
    front: Seq<RecordView>,
    used: nat,
    last: RecordView,
    more: nat,
    rest: Result<(Seq<RecordView>, nat), PatchError>,
)
    ensures
        after_records(front, used, after_records(seq![last], more, rest)) == after_records(
            front.push(last),
            used + more,
            rest,
        ),
{
    if let Ok((records, _)) = rest {
        assert(front + (seq![last] + records) =~= front.push(last) + records);
    }
}

/// `lemma_parse_records_prefix`, proved over the folded name, by induction
/// on the last record.
proof fn lemma_parsed_prefix(records: Seq<RecordView>, after: Seq<u8>)
    requires
        forall|i: int| 0 <= i < records.len() ==> (#[trigger] records[i]).encodable(),
    ensures
        parsed(encode_records(records) + after) == after_records(
            records,
            encode_records(records).len(),
            parsed(after),
        ),
    decreases records.len(),
{
    if records.len() == 0 {
        assert(encode_records(records) + after =~= after);
        if let Ok((rest, _)) = parsed(after) {
            assert(records + rest =~= rest);
        }
    } else {
        let front = records.drop_last();
        let last = records.last();
        let tail = last.encoding() + after;
        lemma_parsed_prefix(front, tail);
        assert(parsed(tail) == after_records(seq![last], last.encoding().len(), parsed(after)))
            by {
            reveal(parsed);
            lemma_parse_records_step(last, after);
        }
        lemma_after_records_push(
            front,
            encode_records(front).len(),
            last,
            last.encoding().len(),
            parsed(after),
        );
        assert(front.push(last) =~= records);
        assert(encode_records(records) + after =~= encode_records(front) + tail);
    }
}

/// Records at the head of a stream are decoded in order, and the rest of
/// the stream after them.
pub proof fn lemma_parse_records_prefix(records: Seq<RecordView>, after: Seq<u8>)
    requires
        forall|i: int| 0 <= i < records.len() ==> (#[trigger] records[i]).encodable(),
    ensures
        parse_records(encode_records(records) + after) == after_records(
            records,
            encode_records(records).len(),
            parse_records(after),
        ),
{
    reveal(parsed);
    lemma_parsed_prefix(records, after);
}

/// Decoding a record stream is complete: the encodings of records that a
/// stream can carry, followed by the terminator, decode to those records,
/// whatever follows the terminator.
pub proof fn lemma_parse_records_of_encoding(records: Seq<RecordView>, rest: Seq<u8>)
    requires
        forall|i: int| 0 <= i < records.len() ==> (#[trigger] records[i]).encodable(),
    ensures
        parse_records(encode_records(records) + TERMINATOR@ + rest) == Ok::<
            (Seq<RecordView>, nat),
            PatchError,
        >((records, encode_records(records).len() + 3)),
{
    lemma_next_outcome_of_terminator(rest);
    lemma_parse_records_prefix(records, TERMINATOR@ + rest);
    assert(encode_records(records) + TERMINATOR@ + rest =~= encode_records(records) + (TERMINATOR@
        + rest));
}

/// Decoding then encoding gives the bytes back: a container decoded from
/// `s` is well formed, and its encoding is `s` up to and including the
/// terminator. Where nothing follows the terminator, the encoding is `s`.
pub proof fn lemma_encoding_of_decoded(s: Seq<u8>)
    ensures
        parse_container(s) matches Ok(container) ==> {
            &&& container.well_formed()
            &&& container.encoding().len() <= s.len()
            &&& s.take(container.encoding().len() as int) == container.encoding()
            &&& container.encoding().len() == s.len() ==> container.encoding() == s
        },
{
    if let Ok(container) = parse_container(s) {
        let stream = s.skip(5);
        lemma_parse_records_sound(stream);
        let (_, used) = parse_records(stream).unwrap();
        assert(s.take(5) =~= MAGIC@);
        assert(s.take(5 + used as int) =~= s.take(5) + stream.take(used as int));
        assert(s.take(s.len() as int) =~= s);
    }
}

/// Encoding then decoding gives the container back: the encoding of a
/// well-formed container decodes to that container, whatever follows it.
pub proof fn lemma_decoding_of_encoded(container: IpsView, rest: Seq<u8>)
    requires
        container.well_formed(),
    ensures
        parse_container(container.encoding() + rest) == Ok::<IpsView, PatchError>(container),
{
    let s = container.encoding() + rest;
    let stream = encode_records(container.records) + TERMINATOR@ + rest;
    assert(s.subrange(0, 5) == MAGIC@ && s.skip(5) == stream) by {
        assert(s.subrange(0, 5) =~= MAGIC@);
        assert(s.skip(5) =~= stream);
    }
    lemma_parse_records_of_encoding(container.records, rest);
}

/// A container without records is the tag followed at once by the
/// terminator. It decodes to an empty run of records, and applying an
/// empty run of records changes nothing in any target.
pub proof fn lemma_empty_container(rest: Seq<u8>, target: Seq<u8>)
    ensures
        parse_container(MAGIC@ + TERMINATOR@ + rest) == Ok::<IpsView, PatchError>(
            IpsView { magic: MAGIC@, records: Seq::empty(), terminator: TERMINATOR@ },
        ),
        apply_records(Seq::empty(), target) == Ok::<Seq<u8>, PatchError>(target),
{
    let empty = IpsView { magic: MAGIC@, records: Seq::empty(), terminator: TERMINATOR@ };
    assert(empty.encoding() =~= MAGIC@ + TERMINATOR@);
    lemma_decoding_of_encoded(empty, rest);
}

/// Decoding reports nothing but a missing or wrong tag, or a record cut
/// short.
pub proof fn lemma_decoding_errors(s: Seq<u8>)
    ensures
        parse_container(s) matches Err(e) ==> e is MissingHeader || e is InvalidHeader
            || e is TruncatedRecord,
        s.len() < 5 ==> parse_container(s) == Err::<IpsView, PatchError>(PatchError::MissingHeader),
        s.len() >= 5 && s.subrange(0, 5) != MAGIC@ ==> parse_container(s) == Err::<
            IpsView,
            PatchError,
        >(PatchError::InvalidHeader),
{
    if s.len() >= 5 {
        lemma_parse_records_errors(s.skip(5));
    }
}

/// A record stream fails only by being cut short.
pub proof fn lemma_parse_records_errors(s: Seq<u8>)
    ensures
        parse_records(s) matches Err(e) ==> e is TruncatedRecord,
    decreases s.len(),
{
    if let Ok((OutcomeView::Record(_), used)) = next_outcome(s) {
        lemma_parse_records_errors(s.skip(used as int));
    }
}

// ---------------------------------------------------------------------
// Application
// ---------------------------------------------------------------------

/// Writing records over a target never changes its length.
pub proof fn lemma_apply_keeps_length(records: Seq<RecordView>, target: Seq<u8>)
    ensures
        apply_records(records, target) matches Ok(patched) ==> patched.len() == target.len(),
    decreases records.len(),
{
    if records.len() > 0 {
        lemma_apply_keeps_length(records.drop_last(), target);
    }
}

/// Once a record has failed to fit, no later record changes the outcome.
pub proof fn lemma_apply_error_persists(records: Seq<RecordView>, target: Seq<u8>, k: int)
    requires
        0 <= k <= records.len(),
        apply_records(records.take(k), target) is Err,
    ensures
        apply_records(records, target) == apply_records(records.take(k), target),
    decreases records.len(),
{
    if k == records.len() {
        assert(records.take(k) =~= records);
    } else {
        assert(records.drop_last().take(k) =~= records.take(k));
        lemma_apply_error_persists(records.drop_last(), target, k);
    }
}

/// Application succeeds exactly when every record fits the target.
pub proof fn lemma_apply_succeeds_iff_all_fit(records: Seq<RecordView>, target: Seq<u8>)
    ensures
        apply_records(records, target) is Ok <==> forall|k: int|
            0 <= k < records.len() ==> (#[trigger] records[k]).fits(target.len()),
    decreases records.len(),
{
    if records.len() > 0 {
        let front = records.drop_last();
        lemma_apply_succeeds_iff_all_fit(front, target);
        lemma_apply_keeps_length(front, target);
        if apply_records(records, target) is Ok {
            assert forall|k: int| 0 <= k < records.len() implies (#[trigger] records[k]).fits(
                target.len(),
            ) by {
                if k < front.len() {
                    assert(front[k] == records[k]);
                }
            }
        } else if apply_records(front, target) is Ok {
            assert(!records[records.len() - 1].fits(target.len()));
        } else {
            let k = choose|k: int| 0 <= k < front.len() && !(#[trigger] front[k]).fits(target.len());
            assert(!records[k].fits(target.len()));
        }
    }
}

/// Application fails at the first record that does not fit, with the
/// error that names that record's offset and length.
pub proof fn lemma_apply_fails_at_first_misfit(
    records: Seq<RecordView>,
    target: Seq<u8>,
    first: int,
)
    requires
        0 <= first < records.len(),
        !records[first].fits(target.len()),
        forall|k: int| 0 <= k < first ==> (#[trigger] records[k]).fits(target.len()),
    ensures
        apply_records(records, target) == Err::<Seq<u8>, PatchError>(
            records[first].out_of_bounds(),
        ),
{
    let upto = records.take(first + 1);
    assert(upto.drop_last() =~= records.take(first));
    assert(upto.last() == records[first]);
    lemma_apply_succeeds_iff_all_fit(records.take(first), target);
    lemma_apply_keeps_length(records.take(first), target);
    lemma_apply_error_persists(records, target, first + 1);
}

/// Last write wins: a byte of the patched target is the byte written by
/// the last record that covers its position.
pub proof fn lemma_last_write_wins(
    records: Seq<RecordView>,
    target: Seq<u8>,
    last: int,
    position: int,
)
    requires
        apply_records(records, target) is Ok,
        0 <= last < records.len(),
        records[last].covers(position),
        forall|k: int| last < k < records.len() ==> !(#[trigger] records[k]).covers(position),
    ensures
        apply_records(records, target).unwrap()[position] == records[last].materialized()[position
            - records[last].target_offset],
    decreases records.len(),
{
    let front = records.drop_last();
    lemma_apply_keeps_length(front, target);
    lemma_apply_succeeds_iff_all_fit(records, target);
    if last < records.len() - 1 {
        assert(!records[records.len() - 1].covers(position));
        assert forall|k: int| last < k < front.len() implies !(#[trigger] front[k]).covers(
            position,
        ) by {
            assert(front[k] == records[k]);
        }
        lemma_last_write_wins(front, target, last, position);
    }
}

/// A byte that no record covers is the byte the target had.
pub proof fn lemma_uncovered_byte_kept(records: Seq<RecordView>, target: Seq<u8>, position: int)
    requires
        apply_records(records, target) is Ok,
        0 <= position < target.len(),
        forall|k: int| 0 <= k < records.len() ==> !(#[trigger] records[k]).covers(position),
    ensures
        apply_records(records, target).unwrap()[position] == target[position],
    decreases records.len(),
{
    if records.len() > 0 {
        let front = records.drop_last();
        lemma_apply_keeps_length(front, target);
        assert(!records[records.len() - 1].covers(position));
        assert forall|k: int| 0 <= k < front.len() implies !(#[trigger] front[k]).covers(
            position,
        ) by {
            assert(front[k] == records[k]);
        }
        lemma_uncovered_byte_kept(front, target, position);
    }
}

/// Of two records applied one after the other, the second decides the
/// bytes that both cover; the first decides the bytes that it alone
/// covers; all other bytes stay as they were.
pub proof fn lemma_second_record_wins(first: RecordView, second: RecordView, target: Seq<u8>)
    requires
        first.fits(target.len()),
        second.fits(target.len()),
    ensures
        apply_records(seq![first, second], target) matches Ok(patched) && patched.len()
            == target.len() && forall|i: int|
            0 <= i < target.len() ==> #[trigger] patched[i] == if second.covers(i) {
                second.materialized()[i - second.target_offset]
            } else if first.covers(i) {
                first.materialized()[i - first.target_offset]
            } else {
                target[i]
            },
{
    reveal_with_fuel(apply_records, 3);
    assert(seq![first, second].drop_last() =~= seq![first]);
    assert(seq![first].drop_last() =~= Seq::<RecordView>::empty());
}

} // verus!
