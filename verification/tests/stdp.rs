#[allow(unused_imports)]
use mp4_bmff::boxes::stdp::StdpBox;
#[allow(unused_imports)]
use mp4_bmff::boxes::stdp::StdpBoxView;
#[allow(unused_imports)]
use mp4_bmff::boxes::stdp::StdpEntry;
#[allow(unused_imports)]
use mp4_bmff::codec::BoxCodec;
#[allow(unused_imports)]
use mp4_bmff::codec::BoxDecode;
#[allow(unused_imports)]
use mp4_bmff::codec::BoxEncode;

fn raw_data() -> [u8; 8] {
    [
        0x00, // version = 0
        0x00, 0x00, 0x00, // flags (3 bytes)
        0x00, 0x64, // entry 1: priority = 100
        0x00, 0xC8, // entry 2: priority = 200
    ]
}

#[test]
fn test_stdp_box_view_decode() {
    let data = raw_data();
    let stdp = StdpBoxView::decode(&data).unwrap();

    assert_eq!(stdp.version, 0);
    assert_eq!(stdp.flags.bits(), 0);

    let mut entries = stdp.entries().into_iter();
    let first = entries.next().unwrap();
    assert_eq!(first.priority, 100);
    let second = entries.next().unwrap();
    assert_eq!(second.priority, 200);
    assert!(entries.next().is_none());
}

#[test]
fn test_stdp_box_view_empty_entries() {
    let data: [u8; 4] = [
        0x00, // version = 0
        0x00, 0x00, 0x00, // flags (3 bytes)
    ];

    let stdp = StdpBoxView::decode(&data).unwrap();
    assert_eq!(stdp.version, 0);
    assert_eq!(stdp.entries().into_iter().count(), 0);
}

#[test]
fn test_stdp_box_view_invalid_size() {
    // 3 bytes after header: not a multiple of 2 (entry size)
    let data: [u8; 7] = [
        0x00, // version = 0
        0x00, 0x00, 0x00, // flags (3 bytes)
        0x00, 0x64, // entry 1: priority = 100
        0x00, // incomplete
    ];

    let result = StdpBoxView::decode(&data);
    assert!(result.is_err());
}

#[test]
fn test_stdp_box_view_truncated() {
    let data: [u8; 2] = [0x00, 0x00]; // too short

    let result = StdpBoxView::decode(&data);
    assert!(result.is_err());
}

#[test]
fn test_stdp_entry_round_trip() {
    let entry = StdpEntry { priority: 12345 };

    let bytes = entry.to_bytes();

    let decoded = StdpEntry::from_bytes(&bytes);
    assert_eq!(decoded.priority, entry.priority);
}

#[test]
fn test_stdp_box_round_trip() {

    let original = raw_data();
    let stdp = StdpBox::decode(&original).unwrap();

    let mut encoded = vec![0u8; stdp.encoded_len()];
    stdp.encode_into(&mut encoded).unwrap();

    assert_eq!(&encoded[..], &original[..]);
}

#[test]
fn test_stdp_box_to_owned() {
    let data = raw_data();
    let view = StdpBoxView::decode(&data).unwrap();
    let owned = view.to_owned();

    assert_eq!(owned.version, view.version);
    assert_eq!(owned.flags.bits(), view.flags.bits());
    assert_eq!(owned.entries.len(), view.entries().into_iter().count());
}
