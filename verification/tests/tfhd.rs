#[allow(unused_imports)]
use mp4_bmff::boxes::tfhd::TfhdBox;
#[allow(unused_imports)]
use mp4_bmff::codec::BoxCodec;
#[allow(unused_imports)]
use mp4_bmff::codec::BoxDecode;
#[allow(unused_imports)]
use mp4_bmff::codec::BoxEncode;

fn raw_data_minimal() -> [u8; 8] {
    [
        0x00, // version = 0
        0x00, 0x00, 0x00, // flags = 0
        0x00, 0x00, 0x00, 0x01, // track_id = 1
    ]
}

fn raw_data_all_optional() -> [u8; 32] {
    [
        0x00, // version = 0
        0x00, 0x00,
        0x3B, // flags = BASE_DATA_OFFSET | SAMPLE_DESC_INDEX | DURATION | SIZE | FLAGS
        0x00, 0x00, 0x00, 0x01, // track_id = 1
        0x00, 0x00, 0x00, 0x00, 0x00, 0x00, 0x10, 0x00, // base_data_offset = 4096
        0x00, 0x00, 0x00, 0x01, // sample_description_index = 1
        0x00, 0x00, 0x03, 0xE8, // default_sample_duration = 1000
        0x00, 0x00, 0x04, 0x00, // default_sample_size = 1024
        0x00, 0x01, 0x00, 0x00, // default_sample_flags = 0x00010000
    ]
}

#[test]
fn test_tfhd_box_decode_minimal() {
    let data = raw_data_minimal();
    let tfhd = TfhdBox::decode(&data).unwrap();

    assert_eq!(tfhd.version, 0);
    assert_eq!(tfhd.flags.bits(), 0);
    assert_eq!(tfhd.track_id, 1);
    assert!(tfhd.base_data_offset.is_none());
    assert!(tfhd.sample_description_index.is_none());
    assert!(tfhd.default_sample_duration.is_none());
    assert!(tfhd.default_sample_size.is_none());
    assert!(tfhd.default_sample_flags.is_none());
}

#[test]
fn test_tfhd_box_decode_all_optional() {
    let data = raw_data_all_optional();
    let tfhd = TfhdBox::decode(&data).unwrap();

    assert_eq!(tfhd.version, 0);
    assert_eq!(tfhd.track_id, 1);
    assert_eq!(tfhd.base_data_offset, Some(4096));
    assert_eq!(tfhd.sample_description_index, Some(1));
    assert_eq!(tfhd.default_sample_duration, Some(1000));
    assert_eq!(tfhd.default_sample_size, Some(1024));
    assert_eq!(tfhd.default_sample_flags, Some(0x00010000));
}

#[test]
fn test_tfhd_box_decode_truncated() {
    let data: [u8; 4] = [0x00; 4];
    let result = TfhdBox::decode(&data);
    assert!(result.is_err());
}

#[test]
fn test_tfhd_box_round_trip_minimal() {
    let original = raw_data_minimal();
    let tfhd = TfhdBox::decode(&original).unwrap();

    let mut encoded = [0u8; 8];
    let len = tfhd.encode_into(&mut encoded).unwrap();

    assert_eq!(len, original.len());
    assert_eq!(&encoded[..], &original[..]);
}

#[test]
fn test_tfhd_box_round_trip_all_optional() {
    let original = raw_data_all_optional();
    let tfhd = TfhdBox::decode(&original).unwrap();

    let mut encoded = [0u8; 32];
    let len = tfhd.encode_into(&mut encoded).unwrap();

    assert_eq!(len, original.len());
    assert_eq!(&encoded[..], &original[..]);
}
