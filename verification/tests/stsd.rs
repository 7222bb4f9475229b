#[allow(unused_imports)]
use mp4_bmff::boxes::stsd::StsdBox;
#[allow(unused_imports)]
use mp4_bmff::boxes::stsd::StsdBoxView;
#[allow(unused_imports)]
use mp4_bmff::codec::BoxCodec;
#[allow(unused_imports)]
use mp4_bmff::codec::BoxDecode;
#[allow(unused_imports)]
use mp4_bmff::codec::BoxEncode;
#[allow(unused_imports)]
use mp4_bmff::types::BoxType;
#[allow(unused_imports)]
use mp4_bmff::types::FourCC;

fn raw_data() -> [u8; 24] {
    [
        0x00, // version = 0
        0x00, 0x00, 0x00, // flags (3 bytes)
        0x00, 0x00, 0x00, 0x01, // entry_count = 1
        // Sample entry (box format):
        0x00, 0x00, 0x00, 0x10, // size = 16
        b't', b'e', b's', b't', // type = "test"
        0x01, 0x02, 0x03, 0x04, // payload (8 bytes)
        0x05, 0x06, 0x07, 0x08,
    ]
}

#[test]
fn test_stsd_box_view_decode() {
    let data = raw_data();
    let stsd = StsdBoxView::decode(&data).unwrap();

    assert_eq!(stsd.version, 0);
    assert_eq!(stsd.flags.bits(), 0);
    assert_eq!(stsd.entry_count, 1);

    let mut entries = stsd.sample_entries();
    let entry = entries.next().unwrap().unwrap();
    assert_eq!(
        entry.header().boxtype(),
        BoxType::new(FourCC::new(*b"test"))
    );
    assert!(entries.next().is_none());
}

#[test]
fn test_stsd_box_view_empty_entries() {
    let data: [u8; 8] = [
        0x00, // version = 0
        0x00, 0x00, 0x00, // flags (3 bytes)
        0x00, 0x00, 0x00, 0x00, // entry_count = 0
    ];

    let stsd = StsdBoxView::decode(&data).unwrap();
    assert_eq!(stsd.version, 0);
    assert_eq!(stsd.entry_count, 0);
    assert!(stsd.sample_entries().next().is_none());
}

#[test]
fn test_stsd_box_view_truncated() {
    let data: [u8; 4] = [0x00; 4]; // too short

    let result = StsdBoxView::decode(&data);
    assert!(result.is_err());
}

#[test]
fn test_stsd_box_round_trip() {

    let original = raw_data();
    let stsd = StsdBox::decode(&original).unwrap();

    let mut encoded = vec![0u8; stsd.encoded_len()];
    stsd.encode_into(&mut encoded).unwrap();

    assert_eq!(&encoded[..], &original[..]);
}

#[test]
fn test_stsd_box_try_from() {
    let data = raw_data();
    let view = StsdBoxView::decode(&data).unwrap();
    let owned = StsdBox::try_from(&view).unwrap();

    assert_eq!(owned.version, view.version);
    assert_eq!(owned.flags.bits(), view.flags.bits());
    assert_eq!(owned.entries.len(), view.entry_count as usize);
}
