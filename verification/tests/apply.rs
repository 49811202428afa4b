use ips_patcher::{Ips, PatchError, Record, Rom, MAGIC, TERMINATOR};

fn rom(data: Vec<u8>) -> Rom {
    Rom { extension: String::from("sfc"), data }
}

fn container(records: Vec<Record>) -> Ips {
    Ips::new(MAGIC, records, TERMINATOR)
}

#[test]
fn literal_scenario_patches_a_zero_filled_buffer() {
    let mut patch = MAGIC.to_vec();
    patch.extend_from_slice(&[0x00, 0x00, 0x10, 0x00, 0x04, 0xAA, 0xBB, 0xCC, 0xDD]);
    patch.extend_from_slice(&TERMINATOR);
    let patched = Ips::decode(&patch).unwrap().apply_patch(rom(vec![0; 32])).unwrap();
    let mut expected = vec![0u8; 32];
    expected[16..20].copy_from_slice(&[0xAA, 0xBB, 0xCC, 0xDD]);
    assert_eq!(patched.data, expected);
    assert_eq!(patched.extension, "sfc");
}

#[test]
fn run_length_scenario_sets_three_bytes() {
    let mut patch = MAGIC.to_vec();
    patch.extend_from_slice(&[0x00, 0x00, 0x05, 0x00, 0x00, 0x00, 0x03, 0xFF]);
    patch.extend_from_slice(&TERMINATOR);
    for len in [8usize, 9, 64] {
        let image: Vec<u8> = (0..len).map(|i| i as u8).collect();
        let patched = Ips::decode(&patch).unwrap().apply_patch(rom(image.clone())).unwrap();
        assert_eq!(&patched.data[5..8], &[0xFF, 0xFF, 0xFF]);
        assert_eq!(&patched.data[..5], &image[..5]);
        assert_eq!(&patched.data[8..], &image[8..]);
    }
}

#[test]
fn run_length_scenario_needs_eight_bytes() {
    let mut patch = MAGIC.to_vec();
    patch.extend_from_slice(&[0x00, 0x00, 0x05, 0x00, 0x00, 0x00, 0x03, 0xFF]);
    patch.extend_from_slice(&TERMINATOR);
    assert_eq!(
        Ips::decode(&patch).unwrap().apply_patch(rom(vec![0; 7])),
        Err(PatchError::OutOfBounds { offset: 5, length: 3 })
    );
}

#[test]
fn empty_patch_changes_nothing() {
    for data in [vec![], vec![1], vec![9, 8, 7, 6, 5]] {
        let patched = Ips::decode(b"PATCHEOF").unwrap().apply_patch(rom(data.clone())).unwrap();
        assert_eq!(patched.data, data);
        assert_eq!(patched.extension, "sfc");
    }
}

#[test]
fn later_record_wins_where_ranges_overlap() {
    let first = Record::new(4, [0, 0, 2], vec![0x11, 0x12, 0x13, 0x14]).unwrap();
    let second = Record::new(3, [0, 0, 4], vec![0x21, 0x22, 0x23]).unwrap();
    let patched = container(vec![first, second]).apply_patch(rom(vec![0; 10])).unwrap();
    assert_eq!(patched.data, vec![0, 0, 0x11, 0x12, 0x21, 0x22, 0x23, 0, 0, 0]);
}

#[test]
fn order_of_overlapping_records_matters() {
    let first = Record::new(3, [0, 0, 4], vec![0x21, 0x22, 0x23]).unwrap();
    let second = Record::new(4, [0, 0, 2], vec![0x11, 0x12, 0x13, 0x14]).unwrap();
    let patched = container(vec![first, second]).apply_patch(rom(vec![0; 10])).unwrap();
    assert_eq!(patched.data, vec![0, 0, 0x11, 0x12, 0x13, 0x14, 0x23, 0, 0, 0]);
}

#[test]
fn run_over_literal_and_literal_over_run() {
    let records = vec![
        Record::new(2, [0, 0, 0], vec![1, 2]).unwrap(),
        Record::run_length([0, 0, 1], 3, 0xEE),
        Record::new(1, [0, 0, 2], vec![7]).unwrap(),
    ];
    let patched = container(records).apply_patch(rom(vec![0x55; 5])).unwrap();
    assert_eq!(patched.data, vec![1, 0xEE, 7, 0xEE, 0x55]);
}

#[test]
fn first_record_that_does_not_fit_is_reported() {
    let records = vec![
        Record::new(2, [0, 0, 0], vec![1, 2]).unwrap(),
        Record::run_length([0, 0, 3], 4, 0),
        Record::run_length([0, 1, 0], 9, 0),
    ];
    assert_eq!(
        container(records).apply_patch(rom(vec![0; 6])),
        Err(PatchError::OutOfBounds { offset: 3, length: 4 })
    );
}

#[test]
fn any_record_on_an_empty_target_is_out_of_bounds() {
    let records = vec![Record::new(1, [0, 0, 0], vec![1]).unwrap()];
    assert_eq!(
        container(records).apply_patch(rom(vec![])),
        Err(PatchError::OutOfBounds { offset: 0, length: 1 })
    );
}

#[test]
fn extension_and_length_pass_through() {
    let records = vec![Record::run_length([0, 0, 0], 2, 0xFF)];
    let target = Rom { extension: String::from("gba"), data: vec![0; 3] };
    let patched = container(records).apply_patch(target).unwrap();
    assert_eq!(patched, Rom { extension: String::from("gba"), data: vec![0xFF, 0xFF, 0] });
}
