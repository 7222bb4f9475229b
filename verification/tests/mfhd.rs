#[allow(unused_imports)]
use mp4_bmff::boxes::mfhd::MfhdBox;
#[allow(unused_imports)]
use mp4_bmff::codec::BoxCodec;
#[allow(unused_imports)]
use mp4_bmff::codec::BoxDecode;
#[allow(unused_imports)]
use mp4_bmff::codec::BoxEncode;

fn raw_data() -> [u8; 8] {
    [
        0x00, // version = 0
        0x00, 0x00, 0x00, // flags = 0
        0x00, 0x00, 0x00, 0x2A, // sequence_number = 42
    ]
}

#[test]
fn test_mfhd_box_decode() {
    let data = raw_data();
    let mfhd = MfhdBox::decode(&data).unwrap();

    assert_eq!(mfhd.version, 0);
    assert_eq!(mfhd.flags.bits(), 0);
    assert_eq!(mfhd.sequence_number, 42);
}

#[test]
fn test_mfhd_box_decode_truncated() {
    let data: [u8; 4] = [0x00; 4];
    let result = MfhdBox::decode(&data);
    assert!(result.is_err());
}

#[test]
fn test_mfhd_box_round_trip() {
    let original = raw_data();
    let mfhd = MfhdBox::decode(&original).unwrap();

    let mut encoded = [0u8; 8];
    let len = mfhd.encode_into(&mut encoded).unwrap();

    assert_eq!(len, original.len());
    assert_eq!(&encoded[..], &original[..]);
}
