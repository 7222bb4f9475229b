use mp4_bmff::boxes::btrt::BtrtBox;
use mp4_bmff::codec::{BoxDecode, BoxEncode};

fn raw_data() -> [u8; 12] {
    [
        0x00, 0x01, 0x00, 0x00, // buffer_size_db = 65536
        0x00, 0x1E, 0x84, 0x80, // max_bitrate = 2000000
        0x00, 0x0F, 0x42, 0x40, // avg_bitrate = 1000000
    ]
}

#[test]
fn test_btrt_box_decode() {
    let data = raw_data();
    let btrt = BtrtBox::decode(&data).unwrap();

    assert_eq!(btrt.buffer_size_db, 65536);
    assert_eq!(btrt.max_bitrate, 2_000_000);
    assert_eq!(btrt.avg_bitrate, 1_000_000);
}

#[test]
fn test_btrt_box_decode_truncated() {
    let data: [u8; 8] = [0x00; 8];
    let result = BtrtBox::decode(&data);
    assert!(result.is_err());
}

#[test]
fn test_btrt_box_round_trip() {
    let original = raw_data();
    let btrt = BtrtBox::decode(&original).unwrap();

    let mut encoded = [0u8; 12];
    let len = btrt.encode_into(&mut encoded).unwrap();

    assert_eq!(len, original.len());
    assert_eq!(&encoded[..], &original[..]);
}
