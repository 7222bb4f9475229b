#[allow(unused_imports)]
use mp4_bmff::boxes::trex::TrexBox;
#[allow(unused_imports)]
use mp4_bmff::codec::BoxCodec;
#[allow(unused_imports)]
use mp4_bmff::codec::BoxDecode;
#[allow(unused_imports)]
use mp4_bmff::codec::BoxEncode;

fn raw_data() -> [u8; 24] {
    [
        0x00, // version = 0
        0x00, 0x00, 0x00, // flags = 0
        0x00, 0x00, 0x00, 0x01, // track_id = 1
        0x00, 0x00, 0x00, 0x01, // default_sample_description_index = 1
        0x00, 0x00, 0x03, 0xE8, // default_sample_duration = 1000
        0x00, 0x00, 0x00, 0x00, // default_sample_size = 0
        0x00, 0x01, 0x00, 0x00, // default_sample_flags = 0x00010000
    ]
}

#[test]
fn test_trex_box_decode() {
    let data = raw_data();
    let trex = TrexBox::decode(&data).unwrap();

    assert_eq!(trex.version, 0);
    assert_eq!(trex.flags.bits(), 0);
    assert_eq!(trex.track_id, 1);
    assert_eq!(trex.default_sample_description_index, 1);
    assert_eq!(trex.default_sample_duration, 1000);
    assert_eq!(trex.default_sample_size, 0);
    assert_eq!(trex.default_sample_flags.to_raw(), 0x00010000);
}

#[test]
fn test_trex_box_decode_truncated() {
    let data: [u8; 12] = [0x00; 12];
    let result = TrexBox::decode(&data);
    assert!(result.is_err());
}

#[test]
fn test_trex_box_round_trip() {
    let original = raw_data();
    let trex = TrexBox::decode(&original).unwrap();

    let mut encoded = [0u8; 24];
    let len = trex.encode_into(&mut encoded).unwrap();

    assert_eq!(len, original.len());
    assert_eq!(&encoded[..], &original[..]);
}
