#[allow(unused_imports)]
use mp4_bmff::boxes::mdhd::MdhdBox;
#[allow(unused_imports)]
use mp4_bmff::codec::BoxCodec;
#[allow(unused_imports)]
use mp4_bmff::codec::BoxDecode;
#[allow(unused_imports)]
use mp4_bmff::codec::BoxEncode;
#[allow(unused_imports)]
use mp4_bmff::types::LanguageCode;

fn raw_data_v0() -> [u8; 24] {
    [
        0x00, // version = 0
        0x00, 0x00, 0x00, // flags (3 bytes)
        0x00, 0x00, 0x00, 0x01, // creation_time (4 bytes)
        0x00, 0x00, 0x00, 0x02, // modification_time (4 bytes)
        0x00, 0x00, 0x03, 0xE8, // timescale = 1000 (4 bytes)
        0x00, 0x00, 0x07, 0xD0, // duration = 2000 (4 bytes)
        0x55, 0xC4, // language = "und" (2 bytes)
        0x00, 0x00, // pre_defined (2 bytes)
    ]
}

fn raw_data_v1() -> [u8; 36] {
    [
        0x01, // version = 1
        0x00, 0x00, 0x00, // flags (3 bytes)
        0x00, 0x00, 0x00, 0x00, 0x00, 0x00, 0x00, 0x01, // creation_time (8 bytes)
        0x00, 0x00, 0x00, 0x00, 0x00, 0x00, 0x00, 0x02, // modification_time (8 bytes)
        0x00, 0x00, 0x03, 0xE8, // timescale = 1000 (4 bytes)
        0x00, 0x00, 0x00, 0x00, 0x00, 0x00, 0x07, 0xD0, // duration = 2000 (8 bytes)
        0x55, 0xC4, // language = "und" (2 bytes)
        0x00, 0x00, // pre_defined (2 bytes)
    ]
}

#[test]
fn test_mdhd_box_decode_v0() {
    let data = raw_data_v0();
    let mdhd = MdhdBox::decode(&data).unwrap();

    assert_eq!(mdhd.version, 0);
    assert_eq!(mdhd.flags.bits(), 0);
    assert_eq!(mdhd.creation_time.to_quicktime_seconds(), 1);
    assert_eq!(mdhd.modification_time.to_quicktime_seconds(), 2);
    assert_eq!(mdhd.timescale, 1000);
    assert_eq!(mdhd.duration, 2000);
    assert_eq!(mdhd.language, LanguageCode::undetermined());
}

#[test]
fn test_mdhd_box_decode_v1() {
    let data = raw_data_v1();
    let mdhd = MdhdBox::decode(&data).unwrap();

    assert_eq!(mdhd.version, 1);
    assert_eq!(mdhd.flags.bits(), 0);
    assert_eq!(mdhd.creation_time.to_quicktime_seconds(), 1);
    assert_eq!(mdhd.modification_time.to_quicktime_seconds(), 2);
    assert_eq!(mdhd.timescale, 1000);
    assert_eq!(mdhd.duration, 2000);
    assert_eq!(mdhd.language, LanguageCode::undetermined());
}

#[test]
fn test_mdhd_box_invalid_version() {
    let mut data = raw_data_v0();
    data[0] = 2; // invalid version

    let result = MdhdBox::decode(&data);
    assert!(result.is_err());
}

#[test]
fn test_mdhd_box_truncated() {
    let data: [u8; 10] = [0x00; 10]; // too short

    let result = MdhdBox::decode(&data);
    assert!(result.is_err());
}

#[test]
fn test_mdhd_box_round_trip_v0() {
    let original = raw_data_v0();
    let mdhd = MdhdBox::decode(&original).unwrap();

    let mut encoded = vec![0u8; mdhd.encoded_len()];
    mdhd.encode_into(&mut encoded).unwrap();

    assert_eq!(&encoded[..], &original[..]);
}

#[test]
fn test_mdhd_box_round_trip_v1() {
    let original = raw_data_v1();
    let mdhd = MdhdBox::decode(&original).unwrap();

    let mut encoded = vec![0u8; mdhd.encoded_len()];
    mdhd.encode_into(&mut encoded).unwrap();

    assert_eq!(&encoded[..], &original[..]);
}
