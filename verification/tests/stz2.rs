#[allow(unused_imports)]
use mp4_bmff::boxes::stz2::Stz2Box;
#[allow(unused_imports)]
use mp4_bmff::boxes::stz2::Stz2BoxView;
#[allow(unused_imports)]
use mp4_bmff::codec::BoxCodec;
#[allow(unused_imports)]
use mp4_bmff::codec::BoxDecode;
#[allow(unused_imports)]
use mp4_bmff::codec::BoxEncode;

// field_size=16, 2 entries: 256, 512
fn raw_data_16bit() -> [u8; 16] {
    [
        0x00, // version = 0
        0x00, 0x00, 0x00, // flags = 0
        0x00, 0x00, 0x00, 0x10, // reserved(24) + field_size(8) = 16
        0x00, 0x00, 0x00, 0x02, // sample_count = 2
        // entries (2 bytes each)
        0x01, 0x00, // entry_size = 256
        0x02, 0x00, // entry_size = 512
    ]
}

// field_size=8, 3 entries: 10, 20, 30
fn raw_data_8bit() -> [u8; 15] {
    [
        0x00, // version = 0
        0x00, 0x00, 0x00, // flags = 0
        0x00, 0x00, 0x00, 0x08, // reserved(24) + field_size(8) = 8
        0x00, 0x00, 0x00, 0x03, // sample_count = 3
        // entries (1 byte each)
        0x0A, // entry_size = 10
        0x14, // entry_size = 20
        0x1E, // entry_size = 30
    ]
}

// field_size=4, 4 entries (even): 1, 2, 3, 4
fn raw_data_4bit_even() -> [u8; 14] {
    [
        0x00, // version = 0
        0x00, 0x00, 0x00, // flags = 0
        0x00, 0x00, 0x00, 0x04, // reserved(24) + field_size(8) = 4
        0x00, 0x00, 0x00, 0x04, // sample_count = 4
        // entries (high nibble first)
        0x12, // entry 1=0x1, entry 2=0x2
        0x34, // entry 3=0x3, entry 4=0x4
    ]
}

// field_size=4, 3 entries (odd): 5, 10, 15 — last byte padded
fn raw_data_4bit_odd() -> [u8; 14] {
    [
        0x00, // version = 0
        0x00, 0x00, 0x00, // flags = 0
        0x00, 0x00, 0x00, 0x04, // reserved(24) + field_size(8) = 4
        0x00, 0x00, 0x00, 0x03, // sample_count = 3
        // entries (high nibble first)
        0x5A, // entry 1=5, entry 2=10
        0xF0, // entry 3=15, pad=0
    ]
}

#[test]
fn test_stz2_box_view_decode_16bit() {
    let data = raw_data_16bit();
    let stz2 = Stz2BoxView::decode(&data).unwrap();

    assert_eq!(stz2.version, 0);
    assert_eq!(stz2.field_size, 16);
    assert_eq!(stz2.sample_count, 2);

    let entries: Vec<_> = stz2.entries().into_iter().map(|e| e.entry_size).collect();
    assert_eq!(entries, [256, 512]);
}

#[test]
fn test_stz2_box_view_decode_8bit() {
    let data = raw_data_8bit();
    let stz2 = Stz2BoxView::decode(&data).unwrap();

    assert_eq!(stz2.field_size, 8);
    assert_eq!(stz2.sample_count, 3);

    let entries: Vec<_> = stz2.entries().into_iter().map(|e| e.entry_size).collect();
    assert_eq!(entries, [10, 20, 30]);
}

#[test]
fn test_stz2_box_view_decode_4bit_even() {
    let data = raw_data_4bit_even();
    let stz2 = Stz2BoxView::decode(&data).unwrap();

    assert_eq!(stz2.field_size, 4);
    assert_eq!(stz2.sample_count, 4);

    let entries: Vec<_> = stz2.entries().into_iter().map(|e| e.entry_size).collect();
    assert_eq!(entries, [1, 2, 3, 4]);
}

#[test]
fn test_stz2_box_view_decode_4bit_odd() {
    let data = raw_data_4bit_odd();
    let stz2 = Stz2BoxView::decode(&data).unwrap();

    assert_eq!(stz2.field_size, 4);
    assert_eq!(stz2.sample_count, 3);

    let entries: Vec<_> = stz2.entries().into_iter().map(|e| e.entry_size).collect();
    assert_eq!(entries, [5, 10, 15]);
}

#[test]
fn test_stz2_box_view_empty_entries() {
    let data: [u8; 12] = [
        0x00, // version = 0
        0x00, 0x00, 0x00, // flags = 0
        0x00, 0x00, 0x00, 0x08, // reserved(24) + field_size(8) = 8
        0x00, 0x00, 0x00, 0x00, // sample_count = 0
    ];

    let stz2 = Stz2BoxView::decode(&data).unwrap();
    assert_eq!(stz2.sample_count, 0);
    assert_eq!(stz2.entries().into_iter().count(), 0);
}

#[test]
fn test_stz2_box_view_truncated() {
    let data: [u8; 4] = [0x00; 4];
    let result = Stz2BoxView::decode(&data);
    assert!(result.is_err());
}

#[test]
fn test_stz2_box_view_invalid_field_size() {
    let data: [u8; 12] = [
        0x00, // version = 0
        0x00, 0x00, 0x00, // flags = 0
        0x00, 0x00, 0x00, 0x03, // reserved(24) + field_size(8) = 3 (invalid)
        0x00, 0x00, 0x00, 0x00, // sample_count = 0
    ];

    let result = Stz2BoxView::decode(&data);
    assert!(result.is_err());
}

#[test]
fn test_stz2_box_round_trip_16bit() {

    let original = raw_data_16bit();
    let stz2 = Stz2Box::decode(&original).unwrap();

    let mut encoded = vec![0u8; stz2.encoded_len()];
    stz2.encode_into(&mut encoded).unwrap();

    assert_eq!(&encoded[..], &original[..]);
}

#[test]
fn test_stz2_box_round_trip_8bit() {

    let original = raw_data_8bit();
    let stz2 = Stz2Box::decode(&original).unwrap();

    let mut encoded = vec![0u8; stz2.encoded_len()];
    stz2.encode_into(&mut encoded).unwrap();

    assert_eq!(&encoded[..], &original[..]);
}

#[test]
fn test_stz2_box_round_trip_4bit_even() {

    let original = raw_data_4bit_even();
    let stz2 = Stz2Box::decode(&original).unwrap();

    let mut encoded = vec![0u8; stz2.encoded_len()];
    stz2.encode_into(&mut encoded).unwrap();

    assert_eq!(&encoded[..], &original[..]);
}

#[test]
fn test_stz2_box_round_trip_4bit_odd() {

    let original = raw_data_4bit_odd();
    let stz2 = Stz2Box::decode(&original).unwrap();

    let mut encoded = vec![0u8; stz2.encoded_len()];
    stz2.encode_into(&mut encoded).unwrap();

    assert_eq!(&encoded[..], &original[..]);
}

#[test]
fn test_stz2_box_to_owned() {
    let data = raw_data_8bit();
    let view = Stz2BoxView::decode(&data).unwrap();
    let owned = view.to_owned();

    assert_eq!(owned.version, view.version);
    assert_eq!(owned.flags.bits(), view.flags.bits());
    assert_eq!(owned.entries.len(), view.sample_count as usize);
}
