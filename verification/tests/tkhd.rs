#[allow(unused_imports)]
use mp4_bmff::boxes::tkhd::TkhdBox;
#[allow(unused_imports)]
use mp4_bmff::codec::BoxCodec;
#[allow(unused_imports)]
use mp4_bmff::codec::BoxDecode;
#[allow(unused_imports)]
use mp4_bmff::codec::BoxEncode;
#[allow(unused_imports)]
use mp4_bmff::flags::TkhdFlags;
#[allow(unused_imports)]
use mp4_bmff::types::Matrix;

fn raw_data_v0() -> [u8; 84] {
    [
        0x00, // version = 0
        0x00, 0x00, 0x07, // flags = 0x000007 (enabled, in_movie, in_preview)
        0x00, 0x00, 0x00, 0x01, // creation_time (4 bytes)
        0x00, 0x00, 0x00, 0x02, // modification_time (4 bytes)
        0x00, 0x00, 0x00, 0x03, // track_id = 3 (4 bytes)
        0x00, 0x00, 0x00, 0x00, // reserved (4 bytes)
        0x00, 0x00, 0x07, 0xD0, // duration = 2000 (4 bytes)
        0x00, 0x00, 0x00, 0x00, // reserved (4 bytes)
        0x00, 0x00, 0x00, 0x00, // reserved (4 bytes)
        0x00, 0x01, // layer = 1 (2 bytes)
        0x00, 0x02, // alternate_group = 2 (2 bytes)
        0x01, 0x00, // volume = 1.0 (2 bytes)
        0x00, 0x00, // reserved (2 bytes)
        // matrix (36 bytes) - identity matrix
        0x00, 0x01, 0x00, 0x00, // a = 1.0
        0x00, 0x00, 0x00, 0x00, // b = 0
        0x00, 0x00, 0x00, 0x00, // u = 0
        0x00, 0x00, 0x00, 0x00, // c = 0
        0x00, 0x01, 0x00, 0x00, // d = 1.0
        0x00, 0x00, 0x00, 0x00, // v = 0
        0x00, 0x00, 0x00, 0x00, // x = 0
        0x00, 0x00, 0x00, 0x00, // y = 0
        0x40, 0x00, 0x00, 0x00, // w = 1.0
        0x01, 0x40, 0x00, 0x00, // width = 320.0 (4 bytes)
        0x00, 0xF0, 0x00, 0x00, // height = 240.0 (4 bytes)
    ]
}

fn raw_data_v1() -> [u8; 96] {
    [
        0x01, // version = 1
        0x00, 0x00, 0x07, // flags = 0x000007 (enabled, in_movie, in_preview)
        0x00, 0x00, 0x00, 0x00, 0x00, 0x00, 0x00, 0x01, // creation_time (8 bytes)
        0x00, 0x00, 0x00, 0x00, 0x00, 0x00, 0x00, 0x02, // modification_time (8 bytes)
        0x00, 0x00, 0x00, 0x03, // track_id = 3 (4 bytes)
        0x00, 0x00, 0x00, 0x00, // reserved (4 bytes)
        0x00, 0x00, 0x00, 0x00, 0x00, 0x00, 0x07, 0xD0, // duration = 2000 (8 bytes)
        0x00, 0x00, 0x00, 0x00, // reserved (4 bytes)
        0x00, 0x00, 0x00, 0x00, // reserved (4 bytes)
        0x00, 0x01, // layer = 1 (2 bytes)
        0x00, 0x02, // alternate_group = 2 (2 bytes)
        0x01, 0x00, // volume = 1.0 (2 bytes)
        0x00, 0x00, // reserved (2 bytes)
        // matrix (36 bytes) - identity matrix
        0x00, 0x01, 0x00, 0x00, // a = 1.0
        0x00, 0x00, 0x00, 0x00, // b = 0
        0x00, 0x00, 0x00, 0x00, // u = 0
        0x00, 0x00, 0x00, 0x00, // c = 0
        0x00, 0x01, 0x00, 0x00, // d = 1.0
        0x00, 0x00, 0x00, 0x00, // v = 0
        0x00, 0x00, 0x00, 0x00, // x = 0
        0x00, 0x00, 0x00, 0x00, // y = 0
        0x40, 0x00, 0x00, 0x00, // w = 1.0
        0x01, 0x40, 0x00, 0x00, // width = 320.0 (4 bytes)
        0x00, 0xF0, 0x00, 0x00, // height = 240.0 (4 bytes)
    ]
}

#[test]
fn test_tkhd_box_decode_v0() {
    let data = raw_data_v0();
    let tkhd = TkhdBox::decode(&data).unwrap();

    assert_eq!(tkhd.version, 0);
    assert_eq!(tkhd.flags.bits(), 0x000007);
    assert!(tkhd.flags.contains(TkhdFlags::TRACK_ENABLED));
    assert!(tkhd.flags.contains(TkhdFlags::TRACK_IN_MOVIE));
    assert!(tkhd.flags.contains(TkhdFlags::TRACK_IN_PREVIEW));
    assert!(!tkhd.flags.contains(TkhdFlags::TRACK_SIZE_IS_ASPECT_RATIO));
    assert_eq!(tkhd.creation_time.to_quicktime_seconds(), 1);
    assert_eq!(tkhd.modification_time.to_quicktime_seconds(), 2);
    assert_eq!(tkhd.track_id, 3);
    assert_eq!(tkhd.duration, 2000);
    assert_eq!(tkhd.layer, 1);
    assert_eq!(tkhd.alternate_group, 2);
    assert_eq!(tkhd.volume.to_raw(), 0x0100);
    assert_eq!(tkhd.matrix, Matrix::identity());
    assert_eq!(tkhd.width.to_raw(), 0x01400000); // 320.0
    assert_eq!(tkhd.height.to_raw(), 0x00F00000); // 240.0
}

#[test]
fn test_tkhd_box_decode_v1() {
    let data = raw_data_v1();
    let tkhd = TkhdBox::decode(&data).unwrap();

    assert_eq!(tkhd.version, 1);
    assert_eq!(tkhd.flags.bits(), 0x000007);
    assert!(tkhd.flags.contains(TkhdFlags::TRACK_ENABLED));
    assert_eq!(tkhd.creation_time.to_quicktime_seconds(), 1);
    assert_eq!(tkhd.modification_time.to_quicktime_seconds(), 2);
    assert_eq!(tkhd.track_id, 3);
    assert_eq!(tkhd.duration, 2000);
    assert_eq!(tkhd.layer, 1);
    assert_eq!(tkhd.alternate_group, 2);
    assert_eq!(tkhd.volume.to_raw(), 0x0100);
    assert_eq!(tkhd.matrix, Matrix::identity());
    assert_eq!(tkhd.width.to_raw(), 0x01400000); // 320.0
    assert_eq!(tkhd.height.to_raw(), 0x00F00000); // 240.0
}

#[test]
fn test_tkhd_box_invalid_version() {
    let mut data = raw_data_v0();
    data[0] = 2; // invalid version

    let result = TkhdBox::decode(&data);
    assert!(result.is_err());
}

#[test]
fn test_tkhd_box_truncated() {
    let data: [u8; 10] = [0x00; 10]; // too short

    let result = TkhdBox::decode(&data);
    assert!(result.is_err());
}

#[test]
fn test_tkhd_box_round_trip_v0() {
    let original = raw_data_v0();
    let tkhd = TkhdBox::decode(&original).unwrap();

    let mut encoded = vec![0u8; tkhd.encoded_len()];
    let written = tkhd.encode_into(&mut encoded).unwrap();

    assert_eq!(written, original.len());
    assert_eq!(&encoded[..], &original[..]);
}

#[test]
fn test_tkhd_box_round_trip_v1() {
    let original = raw_data_v1();
    let tkhd = TkhdBox::decode(&original).unwrap();

    let mut encoded = vec![0u8; tkhd.encoded_len()];
    let written = tkhd.encode_into(&mut encoded).unwrap();

    assert_eq!(written, original.len());
    assert_eq!(&encoded[..], &original[..]);
}
