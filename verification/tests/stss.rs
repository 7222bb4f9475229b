#[allow(unused_imports)]
use mp4_bmff::boxes::stss::StssBox;
#[allow(unused_imports)]
use mp4_bmff::boxes::stss::StssBoxView;
#[allow(unused_imports)]
use mp4_bmff::boxes::stss::StssEntry;
#[allow(unused_imports)]
use mp4_bmff::codec::BoxCodec;
#[allow(unused_imports)]
use mp4_bmff::codec::BoxDecode;
#[allow(unused_imports)]
use mp4_bmff::codec::BoxEncode;

fn raw_data() -> [u8; 16] {
    [
        0x00, // version = 0
        0x00, 0x00, 0x00, // flags (3 bytes)
        0x00, 0x00, 0x00, 0x02, // entry_count = 2
        0x00, 0x00, 0x00, 0x01, // entry 1: sample_number = 1
        0x00, 0x00, 0x00, 0x64, // entry 2: sample_number = 100
    ]
}

#[test]
fn test_stss_box_view_decode() {
    let data = raw_data();
    let stss = StssBoxView::decode(&data).unwrap();

    assert_eq!(stss.version, 0);
    assert_eq!(stss.flags.bits(), 0);
    assert_eq!(stss.entry_count, 2);

    let mut entries = stss.entries().into_iter();
    let first = entries.next().unwrap();
    assert_eq!(first.sample_number, 1);
    let second = entries.next().unwrap();
    assert_eq!(second.sample_number, 100);
    assert!(entries.next().is_none());
}

#[test]
fn test_stss_box_view_empty_entries() {
    let data: [u8; 8] = [
        0x00, // version = 0
        0x00, 0x00, 0x00, // flags (3 bytes)
        0x00, 0x00, 0x00, 0x00, // entry_count = 0
    ];

    let stss = StssBoxView::decode(&data).unwrap();
    assert_eq!(stss.version, 0);
    assert_eq!(stss.entry_count, 0);
    assert_eq!(stss.entries().into_iter().count(), 0);
}

#[test]
fn test_stss_box_view_invalid_size() {
    // entry_count = 2 but only 1 entry provided
    let data: [u8; 12] = [
        0x00, // version = 0
        0x00, 0x00, 0x00, // flags (3 bytes)
        0x00, 0x00, 0x00, 0x02, // entry_count = 2
        0x00, 0x00, 0x00, 0x01, // entry 1: sample_number = 1
    ];

    let result = StssBoxView::decode(&data);
    assert!(result.is_err());
}

#[test]
fn test_stss_box_view_truncated() {
    let data: [u8; 4] = [0x00; 4]; // too short

    let result = StssBoxView::decode(&data);
    assert!(result.is_err());
}

#[test]
fn test_stss_entry_round_trip() {
    let entry = StssEntry {
        sample_number: 12345,
    };

    let bytes = entry.to_bytes();

    let decoded = StssEntry::from_bytes(&bytes);
    assert_eq!(decoded.sample_number, entry.sample_number);
}

#[test]
fn test_stss_box_round_trip() {

    let original = raw_data();
    let stss = StssBox::decode(&original).unwrap();

    let mut encoded = vec![0u8; stss.encoded_len()];
    stss.encode_into(&mut encoded).unwrap();

    assert_eq!(&encoded[..], &original[..]);
}

#[test]
fn test_stss_box_to_owned() {
    let data = raw_data();
    let view = StssBoxView::decode(&data).unwrap();
    let owned = view.to_owned();

    assert_eq!(owned.version, view.version);
    assert_eq!(owned.flags.bits(), view.flags.bits());
    assert_eq!(owned.entries.len(), view.entry_count as usize);
}
