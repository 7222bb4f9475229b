#[allow(unused_imports)]
use mp4_bmff::boxes::smhd::SmhdBox;
#[allow(unused_imports)]
use mp4_bmff::codec::BoxCodec;
#[allow(unused_imports)]
use mp4_bmff::codec::BoxDecode;
#[allow(unused_imports)]
use mp4_bmff::codec::BoxEncode;
#[allow(unused_imports)]
use mp4_bmff::types::I8F8;

fn raw_data() -> [u8; 8] {
    [
        0x00, // version = 0
        0x00, 0x00, 0x00, // flags = 0
        0xFF, 0x00, // balance = -256 (left pan)
        0x00, 0x00, // reserved
    ]
}

#[test]
fn test_smhd_box_decode() {
    let data = raw_data();
    let smhd = SmhdBox::decode(&data).unwrap();

    assert_eq!(smhd.version, 0);
    assert_eq!(smhd.flags.bits(), 0);
    assert_eq!(smhd.balance, I8F8::from_raw(-256)); // -1.0 (left pan)
}

#[test]
fn test_smhd_box_decode_truncated() {
    let data: [u8; 4] = [0x00; 4];
    let result = SmhdBox::decode(&data);
    assert!(result.is_err());
}

#[test]
fn test_smhd_box_round_trip() {
    let original = raw_data();
    let smhd = SmhdBox::decode(&original).unwrap();

    let mut encoded = [0u8; 8];
    let len = smhd.encode_into(&mut encoded).unwrap();

    assert_eq!(len, original.len());
    assert_eq!(&encoded[..], &original[..]);
}
