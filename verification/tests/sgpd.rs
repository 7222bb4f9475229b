#[allow(unused_imports)]
use mp4_bmff::boxes::sgpd::SgpdEntryIter;
#[allow(unused_imports)]
use mp4_bmff::boxes::sgpd::SgpdBox;
#[allow(unused_imports)]
use mp4_bmff::boxes::sgpd::SgpdBoxView;
#[allow(unused_imports)]
use mp4_bmff::codec::BoxCodec;
#[allow(unused_imports)]
use mp4_bmff::codec::BoxDecode;
#[allow(unused_imports)]
use mp4_bmff::codec::BoxEncode;
#[allow(unused_imports)]
use mp4_bmff::types::FourCC;

/// version=1, grouping_type="roll", default_length=2, 2 entries
fn raw_v1_fixed() -> [u8; 20] {
    [
        0x01, // version = 1
        0x00, 0x00, 0x00, // flags = 0
        b'r', b'o', b'l', b'l', // grouping_type = "roll"
        0x00, 0x00, 0x00, 0x02, // default_length = 2
        0x00, 0x00, 0x00, 0x02, // entry_count = 2
        // Entry 1: roll_distance = -1 (0xFFFF)
        0xFF, 0xFF, // Entry 2: roll_distance = 2 (0x0002)
        0x00, 0x02,
    ]
}

/// version=1, grouping_type="seig", default_length=0, 2 entries with length prefixes
fn raw_v1_variable() -> [u8; 28] {
    [
        0x01, // version = 1
        0x00, 0x00, 0x00, // flags = 0
        b's', b'e', b'i', b'g', // grouping_type = "seig"
        0x00, 0x00, 0x00, 0x00, // default_length = 0
        0x00, 0x00, 0x00, 0x02, // entry_count = 2
        // Entry 1: description_length = 3, data = [0xAA, 0xBB, 0xCC]
        0x00, 0x00, 0x00, 0x03, 0xAA, 0xBB, 0xCC,
        // Entry 2: description_length = 1, data = [0xDD]
        0x00, 0x00, 0x00, 0x01, 0xDD,
    ]
}

/// version=2, grouping_type="rap ", default_length=1, default_sample_description_index=1
fn raw_v2() -> [u8; 22] {
    [
        0x02, // version = 2
        0x00, 0x00, 0x00, // flags = 0
        b'r', b'a', b'p', b' ', // grouping_type = "rap "
        0x00, 0x00, 0x00, 0x01, // default_length = 1
        0x00, 0x00, 0x00, 0x01, // default_sample_description_index = 1
        0x00, 0x00, 0x00, 0x02, // entry_count = 2
        0x80, // num_leading_samples_known=1, num_leading_samples=0
        0x83, // num_leading_samples_known=1, num_leading_samples=3
    ]
}

#[test]
fn test_sgpd_box_view_decode() {
    let data = raw_v1_fixed();
    let sgpd = SgpdBoxView::decode(&data).unwrap();

    assert_eq!(sgpd.version, 1);
    assert_eq!(sgpd.flags.bits(), 0);
    assert_eq!(sgpd.grouping_type, FourCC::from(*b"roll"));
    assert_eq!(sgpd.default_length, Some(2));
    assert!(sgpd.default_sample_description_index.is_none());
    assert_eq!(sgpd.entry_count, 2);

    let mut iter = sgpd.sample_group_entries().unwrap();
    assert_eq!(iter.next().unwrap().unwrap(), &[0xFF, 0xFF]);
    assert_eq!(iter.next().unwrap().unwrap(), &[0x00, 0x02]);
    assert!(iter.next().is_none());
}

#[test]
fn test_sgpd_box_view_decode_variable() {
    let data = raw_v1_variable();
    let sgpd = SgpdBoxView::decode(&data).unwrap();

    assert_eq!(sgpd.version, 1);
    assert_eq!(sgpd.default_length, Some(0));
    assert_eq!(sgpd.entry_count, 2);

    let mut iter = sgpd.sample_group_entries().unwrap();
    assert_eq!(iter.next().unwrap().unwrap(), &[0xAA, 0xBB, 0xCC]);
    assert_eq!(iter.next().unwrap().unwrap(), &[0xDD]);
    assert!(iter.next().is_none());
}

#[test]
fn test_sgpd_box_view_decode_v2() {
    let data = raw_v2();
    let sgpd = SgpdBoxView::decode(&data).unwrap();

    assert_eq!(sgpd.version, 2);
    assert_eq!(sgpd.grouping_type, FourCC::from(*b"rap "));
    assert_eq!(sgpd.default_length, Some(1));
    assert_eq!(sgpd.default_sample_description_index, Some(1));
    assert_eq!(sgpd.entry_count, 2);

    let mut iter = sgpd.sample_group_entries().unwrap();
    assert_eq!(iter.next().unwrap().unwrap(), &[0x80]);
    assert_eq!(iter.next().unwrap().unwrap(), &[0x83]);
    assert!(iter.next().is_none());
}

#[test]
fn test_sgpd_box_view_decode_v0() {
    let data: [u8; 14] = [
        0x00, // version = 0
        0x00, 0x00, 0x00, // flags = 0
        b'r', b'o', b'l', b'l', // grouping_type = "roll"
        0x00, 0x00, 0x00, 0x02, // entry_count = 2
        0xFF, 0xFF, // raw entry bytes (no framing)
    ];

    let sgpd = SgpdBoxView::decode(&data).unwrap();

    assert_eq!(sgpd.version, 0);
    assert!(sgpd.default_length.is_none());
    assert!(sgpd.default_sample_description_index.is_none());
    assert_eq!(sgpd.entry_count, 2);
    assert!(sgpd.sample_group_entries().is_none());
    assert_eq!(sgpd.entry_bytes(), &[0xFF, 0xFF]);
}

#[test]
fn test_sgpd_box_view_empty_entries() {
    let data: [u8; 16] = [
        0x01, // version = 1
        0x00, 0x00, 0x00, // flags = 0
        b'r', b'o', b'l', b'l', // grouping_type = "roll"
        0x00, 0x00, 0x00, 0x02, // default_length = 2
        0x00, 0x00, 0x00, 0x00, // entry_count = 0
    ];

    let sgpd = SgpdBoxView::decode(&data).unwrap();
    assert_eq!(sgpd.entry_count, 0);
    assert_eq!(count_entries(sgpd.sample_group_entries().unwrap()), 0);
}

#[test]
fn test_sgpd_box_view_truncated() {
    let data: [u8; 2] = [0x00, 0x00];
    assert!(SgpdBoxView::decode(&data).is_err());
}

#[test]
fn test_sgpd_box_view_invalid_fixed_length_size() {
    // default_length=4 but only 3 bytes of entry data (entry_count=1, expected 4 bytes)
    let data: [u8; 19] = [
        0x01, // version = 1
        0x00, 0x00, 0x00, // flags = 0
        b'r', b'o', b'l', b'l', // grouping_type
        0x00, 0x00, 0x00, 0x04, // default_length = 4
        0x00, 0x00, 0x00, 0x01, // entry_count = 1
        0xAA, 0xBB, 0xCC, // only 3 bytes
    ];

    // decode should fail because remaining (3) != entry_count * default_length (4)
    assert!(SgpdBoxView::decode(&data).is_err());
}

#[test]
fn test_sgpd_box_view_invalid_variable_length_entry() {
    // default_length=0, description_length=4 but only 3 bytes of data
    let data: [u8; 23] = [
        0x01, // version = 1
        0x00, 0x00, 0x00, // flags = 0
        b'r', b'o', b'l', b'l', // grouping_type
        0x00, 0x00, 0x00, 0x00, // default_length = 0
        0x00, 0x00, 0x00, 0x01, // entry_count = 1
        0x00, 0x00, 0x00, 0x04, // description_length = 4
        0xAA, 0xBB, 0xCC, // only 3 bytes
    ];

    let sgpd = SgpdBoxView::decode(&data).unwrap();
    let mut iter = sgpd.sample_group_entries().unwrap();
    assert!(iter.next().unwrap().is_err());
    assert!(iter.next().is_none());
}

#[test]
fn test_sgpd_box_round_trip() {

    let original = raw_v1_fixed();
    let owned = SgpdBox::decode(&original).unwrap();

    let mut encoded = vec![0u8; owned.encoded_len()];
    owned.encode_into(&mut encoded).unwrap();
    assert_eq!(encoded, original);
}

#[test]
fn test_sgpd_box_round_trip_variable() {

    let original = raw_v1_variable();
    let owned = SgpdBox::decode(&original).unwrap();

    let mut encoded = vec![0u8; owned.encoded_len()];
    owned.encode_into(&mut encoded).unwrap();
    assert_eq!(encoded, original);
}

#[test]
fn test_sgpd_box_round_trip_v2() {

    let original = raw_v2();
    let owned = SgpdBox::decode(&original).unwrap();

    let mut encoded = vec![0u8; owned.encoded_len()];
    owned.encode_into(&mut encoded).unwrap();
    assert_eq!(encoded, original);
}

#[test]
fn test_sgpd_box_to_owned_v0() {
    let data: [u8; 14] = [
        0x00, // version = 0
        0x00, 0x00, 0x00, // flags = 0
        b'r', b'o', b'l', b'l', // grouping_type = "roll"
        0x00, 0x00, 0x00, 0x02, // entry_count = 2
        0xFF, 0xFE, // raw entry bytes
    ];

    let view = SgpdBoxView::decode(&data).unwrap();
    let owned = SgpdBox::try_from(&view).unwrap();

    assert_eq!(owned.version, 0);
    assert_eq!(owned.entry_count, 2);
    // Version 0 stores all bytes as a single blob
    assert_eq!(owned.entries.len(), 1);
    assert_eq!(owned.entries[0], &[0xFF, 0xFE]);
}

#[test]
fn test_sgpd_box_to_owned_v1() {
    let data = raw_v1_fixed();
    let view = SgpdBoxView::decode(&data).unwrap();
    let owned = SgpdBox::try_from(&view).unwrap();

    assert_eq!(owned.version, 1);
    assert_eq!(owned.entries.len(), 2);
    assert_eq!(owned.entries[0], &[0xFF, 0xFF]);
    assert_eq!(owned.entries[1], &[0x00, 0x02]);
}

fn count_entries(mut it: SgpdEntryIter<'_>) -> usize {
    let mut n = 0;
    while it.next().is_some() {
        n += 1;
    }
    n
}
