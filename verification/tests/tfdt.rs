#[allow(unused_imports)]
use mp4_bmff::boxes::tfdt::TfdtBox;
#[allow(unused_imports)]
use mp4_bmff::codec::BoxCodec;
#[allow(unused_imports)]
use mp4_bmff::codec::BoxDecode;
#[allow(unused_imports)]
use mp4_bmff::codec::BoxEncode;
#[allow(unused_imports)]
use mp4_bmff::flags::TfdtFlags;

fn raw_data_v0() -> [u8; 8] {
    [
        0x00, // version = 0
        0x00, 0x00, 0x00, // flags = 0
        0x00, 0x01, 0x51, 0x80, // base_media_decode_time = 86400
    ]
}

fn raw_data_v1() -> [u8; 12] {
    [
        0x01, // version = 1
        0x00, 0x00, 0x00, // flags = 0
        0x00, 0x00, 0x00, 0x01, // base_media_decode_time (high 32 bits)
        0x00, 0x00, 0x00, 0x00, // base_media_decode_time (low 32 bits) = 0x100000000
    ]
}

#[test]
fn test_tfdt_box_decode_v0() {
    let data = raw_data_v0();
    let tfdt = TfdtBox::decode(&data).unwrap();

    assert_eq!(tfdt.version, 0);
    assert_eq!(tfdt.flags.bits(), 0);
    assert_eq!(tfdt.base_media_decode_time, 86400);
}

#[test]
fn test_tfdt_box_decode_v1() {
    let data = raw_data_v1();
    let tfdt = TfdtBox::decode(&data).unwrap();

    assert_eq!(tfdt.version, 1);
    assert_eq!(tfdt.flags.bits(), 0);
    assert_eq!(tfdt.base_media_decode_time, 0x100000000);
}

#[test]
fn test_tfdt_box_decode_invalid_version() {
    let data: [u8; 8] = [
        0x02, // version = 2 (invalid)
        0x00, 0x00, 0x00, // flags
        0x00, 0x00, 0x00, 0x00, // base_media_decode_time
    ];

    let result = TfdtBox::decode(&data);
    assert!(result.is_err());
}

#[test]
fn test_tfdt_box_decode_truncated() {
    let data: [u8; 4] = [0x00; 4];
    let result = TfdtBox::decode(&data);
    assert!(result.is_err());
}

#[test]
fn test_tfdt_box_round_trip_v0() {
    let original = raw_data_v0();
    let tfdt = TfdtBox::decode(&original).unwrap();

    let mut encoded = [0u8; 8];
    let len = tfdt.encode_into(&mut encoded).unwrap();

    assert_eq!(len, original.len());
    assert_eq!(&encoded[..], &original[..]);
}

#[test]
fn test_tfdt_box_round_trip_v1() {
    let original = raw_data_v1();
    let tfdt = TfdtBox::decode(&original).unwrap();

    let mut encoded = [0u8; 12];
    let len = tfdt.encode_into(&mut encoded).unwrap();

    assert_eq!(len, original.len());
    assert_eq!(&encoded[..], &original[..]);
}

#[test]
fn test_tfdt_box_encode_invalid_version() {
    let tfdt = TfdtBox {
        version: 2,
        flags: TfdtFlags::empty(),
        base_media_decode_time: 0,
    };

    let mut encoded = [0u8; 12];
    let result = tfdt.encode_into(&mut encoded);
    assert!(result.is_err());
}
