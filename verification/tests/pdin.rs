#[allow(unused_imports)]
use mp4_bmff::boxes::pdin::PdinBox;
#[allow(unused_imports)]
use mp4_bmff::boxes::pdin::PdinBoxView;
#[allow(unused_imports)]
use mp4_bmff::boxes::pdin::PdinEntry;
#[allow(unused_imports)]
use mp4_bmff::codec::BoxCodec;
#[allow(unused_imports)]
use mp4_bmff::codec::BoxDecode;
#[allow(unused_imports)]
use mp4_bmff::codec::BoxEncode;

fn raw_data() -> [u8; 20] {
    [
        0x00, // version
        0x00, 0x00, 0x00, // flags
        0x00, 0x00, 0x03, 0xE8, // entry 1: rate = 1000
        0x00, 0x00, 0x01, 0xF4, // entry 1: initial_delay = 500
        0x00, 0x00, 0x07, 0xD0, // entry 2: rate = 2000
        0x00, 0x00, 0x03, 0xE8, // entry 2: initial_delay = 1000
    ]
}

#[test]
fn test_pdin_box_view_decode() {
    let data = raw_data();
    let pdin_box_view = PdinBoxView::decode(&data).unwrap();
    assert_eq!(pdin_box_view.version, 0);
    assert_eq!(pdin_box_view.flags.bits(), 0);

    let mut entries = pdin_box_view.entries().into_iter();
    let first = entries.next().unwrap();
    assert_eq!(first.rate, 1000);
    assert_eq!(first.initial_delay, 500);
    let second = entries.next().unwrap();
    assert_eq!(second.rate, 2000);
    assert_eq!(second.initial_delay, 1000);
    assert!(entries.next().is_none());
}

#[test]
fn test_pdin_box_view_empty_entries() {
    let data: [u8; 4] = [
        0x00, // version
        0x00, 0x00, 0x00, // flags
    ];

    let pdin_box_view = PdinBoxView::decode(&data).unwrap();
    assert_eq!(pdin_box_view.version, 0);
    assert_eq!(pdin_box_view.entries().into_iter().count(), 0);
}

#[test]
fn test_pdin_box_view_invalid_size() {
    // 7 bytes after header: not a multiple of 8 (entry size)
    let data: [u8; 11] = [
        0x00, // version
        0x00, 0x00, 0x00, // flags
        0x00, 0x00, 0x03, 0xE8, // partial entry
        0x00, 0x00, 0x01, // incomplete
    ];

    let result = PdinBoxView::decode(&data);
    assert!(result.is_err());
}

#[test]
fn test_pdin_box_view_truncated() {
    // Only 2 bytes, missing flags
    let data: [u8; 2] = [0x00, 0x00];

    let result = PdinBoxView::decode(&data);
    assert!(result.is_err());
}

#[test]
fn test_pdin_entry_round_trip() {
    let entry = PdinEntry {
        rate: 1000,
        initial_delay: 500,
    };

    let bytes = entry.to_bytes();

    let decoded = PdinEntry::from_bytes(&bytes);
    assert_eq!(decoded.rate, entry.rate);
    assert_eq!(decoded.initial_delay, entry.initial_delay);
}

#[test]
fn test_pdin_box_round_trip() {

    let original = raw_data();
    let pdin_box = PdinBox::decode(&original).unwrap();

    let mut encoded = vec![0u8; pdin_box.encoded_len()];
    pdin_box.encode_into(&mut encoded).unwrap();

    assert_eq!(&encoded[..], &original[..]);
}

#[test]
fn test_pdin_box_to_owned() {
    let data = raw_data();
    let view = PdinBoxView::decode(&data).unwrap();
    let owned = view.to_owned();

    assert_eq!(owned.version, view.version);
    assert_eq!(owned.flags.bits(), view.flags.bits());
    assert_eq!(owned.entries.len(), view.entries().into_iter().count());
}
