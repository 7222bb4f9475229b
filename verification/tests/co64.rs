#[allow(unused_imports)]
use mp4_bmff::boxes::co64::Co64Box;
#[allow(unused_imports)]
use mp4_bmff::boxes::co64::Co64BoxView;
#[allow(unused_imports)]
use mp4_bmff::boxes::co64::Co64Entry;
#[allow(unused_imports)]
use mp4_bmff::codec::BoxCodec;
#[allow(unused_imports)]
use mp4_bmff::codec::BoxDecode;
#[allow(unused_imports)]
use mp4_bmff::codec::BoxEncode;

fn raw_data() -> [u8; 24] {
    [
        0x00, // version = 0
        0x00, 0x00, 0x00, // flags = 0
        0x00, 0x00, 0x00, 0x02, // entry_count = 2
        // entries
        0x00, 0x00, 0x00, 0x01, 0x00, 0x00, 0x10,
        0x00, // chunk_offset = 4294971392 (> 4GB)
        0x00, 0x00, 0x00, 0x02, 0x00, 0x00, 0x20,
        0x00, // chunk_offset = 8589942784 (> 4GB)
    ]
}

#[test]
fn test_co64_box_view_decode() {
    let data = raw_data();
    let co64 = Co64BoxView::decode(&data).unwrap();

    assert_eq!(co64.version, 0);
    assert_eq!(co64.entry_count, 2);

    let mut entries = co64.entries().into_iter();
    assert_eq!(entries.next().unwrap().chunk_offset, 0x0000_0001_0000_1000);
    assert_eq!(entries.next().unwrap().chunk_offset, 0x0000_0002_0000_2000);
    assert!(entries.next().is_none());
}

#[test]
fn test_co64_box_view_empty_entries() {
    let data: [u8; 8] = [
        0x00, // version = 0
        0x00, 0x00, 0x00, // flags = 0
        0x00, 0x00, 0x00, 0x00, // entry_count = 0
    ];

    let co64 = Co64BoxView::decode(&data).unwrap();
    assert_eq!(co64.entry_count, 0);
    assert_eq!(co64.entries().into_iter().count(), 0);
}

#[test]
fn test_co64_box_view_truncated() {
    let data: [u8; 4] = [0x00; 4];
    let result = Co64BoxView::decode(&data);
    assert!(result.is_err());
}

#[test]
fn test_co64_entry_round_trip() {
    let entry = Co64Entry {
        chunk_offset: 0x0000_0001_0000_1000,
    };

    let bytes = entry.to_bytes();

    let decoded = Co64Entry::from_bytes(&bytes);
    assert_eq!(decoded.chunk_offset, entry.chunk_offset);
}

#[test]
fn test_co64_box_round_trip() {

    let original = raw_data();
    let co64 = Co64Box::decode(&original).unwrap();

    let mut encoded = vec![0u8; co64.encoded_len()];
    co64.encode_into(&mut encoded).unwrap();

    assert_eq!(&encoded[..], &original[..]);
}

#[test]
fn test_co64_box_to_owned() {
    let data = raw_data();
    let view = Co64BoxView::decode(&data).unwrap();
    let owned = view.to_owned();

    assert_eq!(owned.version, view.version);
    assert_eq!(owned.flags.bits(), view.flags.bits());
    assert_eq!(owned.entries.len(), view.entry_count as usize);
}
