use ips_patcher::{
    decode_next, ByteCursor, Ips, Outcome, PatchError, Payload, Record, RecordField, MAGIC,
    TERMINATOR,
};

fn patch(records: &[u8]) -> Vec<u8> {
    let mut bytes = MAGIC.to_vec();
    bytes.extend_from_slice(records);
    bytes.extend_from_slice(&TERMINATOR);
    bytes
}

#[test]
fn magic_and_terminator_are_ascii_tags() {
    assert_eq!(&MAGIC, b"PATCH");
    assert_eq!(&TERMINATOR, b"EOF");
}

#[test]
fn short_buffer_is_missing_header() {
    assert_eq!(Ips::decode(&[]), Err(PatchError::MissingHeader));
    assert_eq!(Ips::decode(b"PATC"), Err(PatchError::MissingHeader));
}

#[test]
fn wrong_tag_is_invalid_header() {
    assert_eq!(Ips::decode(b"PATCX"), Err(PatchError::InvalidHeader));
    assert_eq!(Ips::decode(b"patchEOF"), Err(PatchError::InvalidHeader));
    assert_eq!(Ips::decode(&[0xFF, 0xFE, 0xFD, 0xFC, 0xFB, 0x45, 0x4F, 0x46]), Err(PatchError::InvalidHeader));
}

#[test]
fn tag_alone_lacks_the_terminator() {
    assert_eq!(
        Ips::decode(b"PATCH"),
        Err(PatchError::TruncatedRecord { field: RecordField::Offset })
    );
}

#[test]
fn empty_container_decodes_to_no_records() {
    let ips = Ips::decode(b"PATCHEOF").unwrap();
    assert!(ips.records().is_empty());
    assert_eq!(ips.magic(), MAGIC);
    assert_eq!(ips.terminator(), TERMINATOR);
}

#[test]
fn literal_record_scenario() {
    let bytes = patch(&[0x00, 0x00, 0x10, 0x00, 0x04, 0xAA, 0xBB, 0xCC, 0xDD]);
    let ips = Ips::decode(&bytes).unwrap();
    assert_eq!(ips.records().len(), 1);
    let record = &ips.records()[0];
    assert_eq!(record.payload(), &Payload::Literal(vec![0xAA, 0xBB, 0xCC, 0xDD]));
    assert_eq!(record.get_offset(), (16, 20));
    assert_eq!(record.length(), 4);
}

#[test]
fn run_length_record_scenario() {
    let bytes = patch(&[0x00, 0x00, 0x05, 0x00, 0x00, 0x00, 0x03, 0xFF]);
    let ips = Ips::decode(&bytes).unwrap();
    assert_eq!(ips.records().len(), 1);
    let record = &ips.records()[0];
    assert_eq!(record.payload(), &Payload::RunLength(3, 0xFF));
    assert_eq!(record.get_offset(), (5, 8));
    assert_eq!(record.data(), vec![0xFF, 0xFF, 0xFF]);
}

#[test]
fn end_of_input_after_a_record_is_truncation() {
    let mut bytes = MAGIC.to_vec();
    bytes.extend_from_slice(&[0x00, 0x00, 0x00, 0x00, 0x02, 0x01, 0x02]);
    assert_eq!(
        Ips::decode(&bytes),
        Err(PatchError::TruncatedRecord { field: RecordField::Offset })
    );
}

#[test]
fn truncation_names_the_field() {
    let cases: [(&[u8], RecordField); 7] = [
        (&[], RecordField::Offset),
        (&[0x00, 0x00], RecordField::Offset),
        (&[0x00, 0x00, 0x01], RecordField::Size),
        (&[0x00, 0x00, 0x01, 0x00], RecordField::Size),
        (&[0x00, 0x00, 0x01, 0x00, 0x03, 0xAA, 0xBB], RecordField::Payload),
        (&[0x00, 0x00, 0x01, 0x00, 0x00, 0x00], RecordField::RunCount),
        (&[0x00, 0x00, 0x01, 0x00, 0x00, 0x00, 0x09], RecordField::RunValue),
    ];
    for (stream, field) in cases {
        let mut bytes = MAGIC.to_vec();
        bytes.extend_from_slice(stream);
        assert_eq!(Ips::decode(&bytes), Err(PatchError::TruncatedRecord { field }));
        let mut cursor = ByteCursor::new(stream);
        assert_eq!(decode_next(&mut cursor), Err(PatchError::TruncatedRecord { field }));
    }
}

#[test]
fn records_keep_stream_order() {
    let bytes = patch(&[
        0x00, 0x00, 0x02, 0x00, 0x01, 0x11, // literal at 2
        0x00, 0x01, 0x00, 0x00, 0x00, 0x00, 0x04, 0x22, // run at 256
        0x01, 0x02, 0x03, 0x00, 0x02, 0x33, 0x44, // literal at 0x010203
    ]);
    let ips = Ips::decode(&bytes).unwrap();
    let ranges: Vec<(u32, u32)> = ips.records().iter().map(|r| r.get_offset()).collect();
    assert_eq!(ranges, vec![(2, 3), (256, 260), (0x010203, 0x010205)]);
    assert_eq!(ips.records()[0].payload(), &Payload::Literal(vec![0x11]));
    assert_eq!(ips.records()[1].payload(), &Payload::RunLength(4, 0x22));
    assert_eq!(ips.records()[2].payload(), &Payload::Literal(vec![0x33, 0x44]));
}

#[test]
fn bytes_after_the_terminator_are_ignored() {
    let mut bytes = patch(&[0x00, 0x00, 0x05, 0x00, 0x00, 0x00, 0x03, 0xFF]);
    bytes.extend_from_slice(&[0xDE, 0xAD, 0xBE, 0xEF]);
    let ips = Ips::decode(&bytes).unwrap();
    assert_eq!(ips.records().len(), 1);
    assert_eq!(ips.encode(), &bytes[..bytes.len() - 4]);
}

#[test]
fn offset_that_spells_the_terminator_ends_the_stream() {
    // The offset 0x454F46 cannot be told from the terminator.
    let bytes = patch(&[0x45, 0x4F, 0x46, 0x00, 0x01, 0x99]);
    let ips = Ips::decode(&bytes).unwrap();
    assert!(ips.records().is_empty());
}

#[test]
fn zero_count_run_is_a_record() {
    let bytes = patch(&[0x00, 0x00, 0x07, 0x00, 0x00, 0x00, 0x00, 0x55]);
    let ips = Ips::decode(&bytes).unwrap();
    assert_eq!(ips.records()[0].payload(), &Payload::RunLength(0, 0x55));
    assert_eq!(ips.records()[0].get_offset(), (7, 7));
    assert_eq!(ips.records()[0].data(), Vec::<u8>::new());
}

#[test]
fn largest_literal_and_offset() {
    let mut stream = vec![0xFF, 0xFF, 0xFF, 0xFF, 0xFF];
    stream.extend(std::iter::repeat(0xA5).take(0xFFFF));
    let ips = Ips::decode(&patch(&stream)).unwrap();
    let record = &ips.records()[0];
    assert_eq!(record.length(), 0xFFFF);
    assert_eq!(record.get_offset(), (0xFF_FFFF, 0xFF_FFFF + 0xFFFF));
}

#[test]
fn decode_next_walks_the_stream() {
    let stream = [
        0x00, 0x00, 0x10, 0x00, 0x02, 0xAA, 0xBB, // literal
        0x00, 0x00, 0x05, 0x00, 0x00, 0x00, 0x03, 0xFF, // run
        0x45, 0x4F, 0x46, // terminator
        0x01, // not read
    ];
    let mut cursor = ByteCursor::new(&stream);
    assert_eq!(cursor.position(), 0);
    assert_eq!(
        decode_next(&mut cursor),
        Ok(Outcome::Record(Record::new(2, [0x00, 0x00, 0x10], vec![0xAA, 0xBB]).unwrap()))
    );
    assert_eq!(cursor.position(), 7);
    assert_eq!(
        decode_next(&mut cursor),
        Ok(Outcome::Record(Record::run_length([0x00, 0x00, 0x05], 3, 0xFF)))
    );
    assert_eq!(cursor.position(), 15);
    assert_eq!(decode_next(&mut cursor), Ok(Outcome::Terminator));
    assert_eq!(cursor.position(), 18);
}

#[test]
fn cursor_take_reads_exactly_or_not_at_all() {
    let bytes = [1u8, 2, 3, 4, 5];
    let mut cursor = ByteCursor::new(&bytes);
    assert_eq!(cursor.take(2), Some(&bytes[0..2]));
    assert_eq!(cursor.position(), 2);
    assert_eq!(cursor.take(4), None);
    assert_eq!(cursor.position(), 2);
    assert_eq!(cursor.take(0), Some(&bytes[2..2]));
    assert_eq!(cursor.take(3), Some(&bytes[2..5]));
    assert_eq!(cursor.position(), 5);
    assert_eq!(cursor.take(1), None);
}

#[test]
fn try_from_decodes_like_decode() {
    let bytes = patch(&[0x00, 0x00, 0x10, 0x00, 0x04, 0xAA, 0xBB, 0xCC, 0xDD]);
    assert_eq!(Ips::try_from(bytes.as_slice()), Ips::decode(&bytes));
    let converted: Result<Ips, PatchError> = b"PATC".as_slice().try_into();
    assert_eq!(converted, Err(PatchError::MissingHeader));
}

#[test]
fn error_messages() {
    assert_eq!(PatchError::MissingHeader.message(), "missing header");
    assert_eq!(PatchError::InvalidHeader.message(), "invalid header");
    assert_eq!(
        PatchError::TruncatedRecord { field: RecordField::Size }.message(),
        "truncated record"
    );
    assert_eq!(
        PatchError::InvalidRecordLength { declared: 2, actual: 1 }.message(),
        "data and length do not match in record"
    );
    assert_eq!(
        PatchError::OutOfBounds { offset: 1, length: 2 }.message(),
        "record does not fit in the target"
    );
}
