#[allow(unused_imports)]
use mp4_bmff::boxes::mehd::MehdBox;
#[allow(unused_imports)]
use mp4_bmff::codec::BoxCodec;
#[allow(unused_imports)]
use mp4_bmff::codec::BoxDecode;
#[allow(unused_imports)]
use mp4_bmff::codec::BoxEncode;
#[allow(unused_imports)]
use mp4_bmff::flags::MehdFlags;

fn raw_data_v0() -> [u8; 8] {
    [
        0x00, // version = 0
        0x00, 0x00, 0x00, // flags = 0
        0x00, 0x01, 0x51, 0x80, // fragment_duration = 86400 (1 day in seconds)
    ]
}

fn raw_data_v1() -> [u8; 12] {
    [
        0x01, // version = 1
        0x00, 0x00, 0x00, // flags = 0
        0x00, 0x00, 0x00, 0x01, // fragment_duration (high 32 bits)
        0x00, 0x00, 0x00, 0x00, // fragment_duration (low 32 bits) = 0x100000000
    ]
}

#[test]
fn test_mehd_box_decode_v0() {
    let data = raw_data_v0();
    let mehd = MehdBox::decode(&data).unwrap();

    assert_eq!(mehd.version, 0);
    assert_eq!(mehd.flags.bits(), 0);
    assert_eq!(mehd.fragment_duration, 86400);
}

#[test]
fn test_mehd_box_decode_v1() {
    let data = raw_data_v1();
    let mehd = MehdBox::decode(&data).unwrap();

    assert_eq!(mehd.version, 1);
    assert_eq!(mehd.flags.bits(), 0);
    assert_eq!(mehd.fragment_duration, 0x100000000);
}

#[test]
fn test_mehd_box_decode_invalid_version() {
    let data: [u8; 8] = [
        0x02, // version = 2 (invalid)
        0x00, 0x00, 0x00, // flags
        0x00, 0x00, 0x00, 0x00, // fragment_duration
    ];

    let result = MehdBox::decode(&data);
    assert!(result.is_err());
}

#[test]
fn test_mehd_box_decode_truncated() {
    let data: [u8; 4] = [0x00, 0x00, 0x00, 0x00];
    let result = MehdBox::decode(&data);
    assert!(result.is_err());
}

#[test]
fn test_mehd_box_round_trip_v0() {
    let original = raw_data_v0();
    let mehd = MehdBox::decode(&original).unwrap();

    let mut encoded = [0u8; 8];
    let len = mehd.encode_into(&mut encoded).unwrap();

    assert_eq!(len, original.len());
    assert_eq!(&encoded[..], &original[..]);
}

#[test]
fn test_mehd_box_round_trip_v1() {
    let original = raw_data_v1();
    let mehd = MehdBox::decode(&original).unwrap();

    let mut encoded = [0u8; 12];
    let len = mehd.encode_into(&mut encoded).unwrap();

    assert_eq!(len, original.len());
    assert_eq!(&encoded[..], &original[..]);
}

#[test]
fn test_mehd_box_encode_invalid_version() {
    let mehd = MehdBox {
        version: 2,
        flags: MehdFlags::empty(),
        fragment_duration: 0,
    };

    let mut encoded = [0u8; 12];
    let result = mehd.encode_into(&mut encoded);
    assert!(result.is_err());
}
