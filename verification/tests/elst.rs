#[allow(unused_imports)]
use mp4_bmff::boxes::elst::ElstBox;
#[allow(unused_imports)]
use mp4_bmff::boxes::elst::ElstBoxView;
#[allow(unused_imports)]
use mp4_bmff::codec::BoxCodec;
#[allow(unused_imports)]
use mp4_bmff::codec::BoxDecode;
#[allow(unused_imports)]
use mp4_bmff::codec::BoxEncode;
#[allow(unused_imports)]
use mp4_bmff::types::I16F16;

fn raw_data_v0() -> [u8; 20] {
    [
        0x00, // version = 0
        0x00, 0x00, 0x00, // flags (3 bytes)
        0x00, 0x00, 0x00, 0x01, // entry_count = 1
        // entry (12 bytes):
        0x00, 0x00, 0x03, 0xE8, // segment_duration = 1000
        0xFF, 0xFF, 0xFF, 0xFF, // media_time = -1
        0x00, 0x01, // media_rate_integer = 1
        0x00, 0x00, // media_rate_fraction = 0
    ]
}

fn raw_data_v1() -> [u8; 28] {
    [
        0x01, // version = 1
        0x00, 0x00, 0x00, // flags (3 bytes)
        0x00, 0x00, 0x00, 0x01, // entry_count = 1
        // entry (20 bytes):
        0x00, 0x00, 0x00, 0x00, 0x00, 0x00, 0x03, 0xE8, // segment_duration = 1000
        0xFF, 0xFF, 0xFF, 0xFF, 0xFF, 0xFF, 0xFF, 0xFF, // media_time = -1
        0x00, 0x01, // media_rate_integer = 1
        0x00, 0x00, // media_rate_fraction = 0
    ]
}

#[test]
fn test_elst_box_view_decode_v0() {
    let data = raw_data_v0();
    let elst = ElstBoxView::decode(&data).unwrap();

    assert_eq!(elst.version, 0);
    assert_eq!(elst.flags.bits(), 0);
    assert_eq!(elst.entry_count, 1);

    let mut entries = elst.entries().unwrap().into_iter();
    let entry = entries.next().unwrap();
    assert_eq!(entry.segment_duration, 1000);
    assert_eq!(entry.media_time, -1);
    assert_eq!(entry.media_rate, I16F16::from_raw(0x00010000)); // 1.0
    assert!(entries.next().is_none());
}

#[test]
fn test_elst_box_view_decode_v1() {
    let data = raw_data_v1();
    let elst = ElstBoxView::decode(&data).unwrap();

    assert_eq!(elst.version, 1);
    assert_eq!(elst.flags.bits(), 0);
    assert_eq!(elst.entry_count, 1);

    let mut entries = elst.entries().unwrap().into_iter();
    let entry = entries.next().unwrap();
    assert_eq!(entry.segment_duration, 1000);
    assert_eq!(entry.media_time, -1);
    assert_eq!(entry.media_rate, I16F16::from_raw(0x00010000)); // 1.0
    assert!(entries.next().is_none());
}

#[test]
fn test_elst_box_view_empty_entries() {
    let data: [u8; 8] = [
        0x00, // version = 0
        0x00, 0x00, 0x00, // flags (3 bytes)
        0x00, 0x00, 0x00, 0x00, // entry_count = 0
    ];

    let elst = ElstBoxView::decode(&data).unwrap();
    assert_eq!(elst.version, 0);
    assert_eq!(elst.entry_count, 0);
    assert_eq!(elst.entries().unwrap().into_iter().count(), 0);
}

#[test]
fn test_elst_box_view_invalid_version() {
    let mut data = raw_data_v0();
    data[0] = 2; // invalid version

    let result = ElstBoxView::decode(&data);
    assert!(result.is_err());
}

#[test]
fn test_elst_box_view_invalid_size() {
    // entry_count = 2 but only 1 entry provided
    let data: [u8; 20] = [
        0x00, // version = 0
        0x00, 0x00, 0x00, // flags (3 bytes)
        0x00, 0x00, 0x00, 0x02, // entry_count = 2
        // only 1 entry (12 bytes):
        0x00, 0x00, 0x03, 0xE8, // segment_duration = 1000
        0xFF, 0xFF, 0xFF, 0xFF, // media_time = -1
        0x00, 0x01, // media_rate_integer = 1
        0x00, 0x00, // media_rate_fraction = 0
    ];

    let result = ElstBoxView::decode(&data);
    assert!(result.is_err());
}

#[test]
fn test_elst_box_view_truncated() {
    let data: [u8; 4] = [0x00; 4]; // too short

    let result = ElstBoxView::decode(&data);
    assert!(result.is_err());
}

#[test]
fn test_elst_box_round_trip_v0() {

    let original = raw_data_v0();
    let elst = ElstBox::decode(&original).unwrap();

    let mut encoded = vec![0u8; elst.encoded_len()];
    elst.encode_into(&mut encoded).unwrap();

    assert_eq!(&encoded[..], &original[..]);
}

#[test]
fn test_elst_box_round_trip_v1() {

    let original = raw_data_v1();
    let elst = ElstBox::decode(&original).unwrap();

    let mut encoded = vec![0u8; elst.encoded_len()];
    elst.encode_into(&mut encoded).unwrap();

    assert_eq!(&encoded[..], &original[..]);
}

#[test]
fn test_elst_box_try_from() {
    let data = raw_data_v0();
    let view = ElstBoxView::decode(&data).unwrap();
    let owned = ElstBox::try_from(&view).unwrap();

    assert_eq!(owned.version, view.version);
    assert_eq!(owned.flags.bits(), view.flags.bits());
    assert_eq!(owned.entries.len(), view.entry_count as usize);
}
