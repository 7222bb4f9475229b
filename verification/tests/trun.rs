#[allow(unused_imports)]
use mp4_bmff::boxes::trun::TrunBox;
#[allow(unused_imports)]
use mp4_bmff::boxes::trun::TrunBoxView;
#[allow(unused_imports)]
use mp4_bmff::codec::BoxCodec;
#[allow(unused_imports)]
use mp4_bmff::codec::BoxDecode;
#[allow(unused_imports)]
use mp4_bmff::codec::BoxEncode;

fn raw_data_minimal() -> [u8; 8] {
    [
        0x00, // version = 0
        0x00, 0x00, 0x00, // flags = 0
        0x00, 0x00, 0x00, 0x00, // sample_count = 0
    ]
}

fn raw_data_with_samples() -> [u8; 28] {
    [
        0x00, // version = 0
        0x00, 0x03, 0x01, // flags = DATA_OFFSET | SAMPLE_DURATION | SAMPLE_SIZE
        0x00, 0x00, 0x00, 0x02, // sample_count = 2
        0x00, 0x00, 0x01, 0x00, // data_offset = 256
        // sample 1
        0x00, 0x00, 0x03, 0xE8, // duration = 1000
        0x00, 0x00, 0x10, 0x00, // size = 4096
        // sample 2
        0x00, 0x00, 0x03, 0xE8, // duration = 1000
        0x00, 0x00, 0x08, 0x00, // size = 2048
    ]
}

#[test]
fn test_trun_box_view_decode_minimal() {
    let data = raw_data_minimal();
    let trun = TrunBoxView::decode(&data).unwrap();

    assert_eq!(trun.version, 0);
    assert_eq!(trun.flags.bits(), 0);
    assert_eq!(trun.sample_count, 0);
    assert!(trun.data_offset.is_none());
    assert!(trun.first_sample_flags.is_none());
    assert_eq!(trun.entries().into_iter().count(), 0);
}

#[test]
fn test_trun_box_view_decode_with_samples() {
    let data = raw_data_with_samples();
    let trun = TrunBoxView::decode(&data).unwrap();

    assert_eq!(trun.version, 0);
    assert_eq!(trun.sample_count, 2);
    assert_eq!(trun.data_offset, Some(256));

    let samples: Vec<_> = trun.entries().into_iter().collect();
    assert_eq!(samples.len(), 2);

    let sample1 = &samples[0];
    assert_eq!(sample1.duration, Some(1000));
    assert_eq!(sample1.size, Some(4096));

    let sample2 = &samples[1];
    assert_eq!(sample2.duration, Some(1000));
    assert_eq!(sample2.size, Some(2048));
}

#[test]
fn test_trun_box_view_decode_invalid_version() {
    let data: [u8; 8] = [
        0x02, // version = 2 (invalid)
        0x00, 0x00, 0x00, // flags = 0
        0x00, 0x00, 0x00, 0x00, // sample_count = 0
    ];

    let result = TrunBoxView::decode(&data);
    assert!(result.is_err());
}

#[test]
fn test_trun_box_view_decode_truncated() {
    let data: [u8; 4] = [0x00; 4];
    let result = TrunBoxView::decode(&data);
    assert!(result.is_err());
}

#[test]
fn test_trun_box_view_decode_sample_count_mismatch() {
    let data: [u8; 12] = [
        0x00, // version = 0
        0x00, 0x01, 0x00, // flags = SAMPLE_DURATION
        0x00, 0x00, 0x00, 0x02, // sample_count = 2
        // only 1 sample provided (4 bytes instead of 8)
        0x00, 0x00, 0x03, 0xE8,
    ];

    let result = TrunBoxView::decode(&data);
    assert!(result.is_err());
}

#[test]
fn test_trun_box_round_trip_minimal() {

    let original = raw_data_minimal();
    let trun = TrunBox::decode(&original).unwrap();

    let mut encoded = vec![0u8; trun.encoded_len()];
    let len = trun.encode_into(&mut encoded).unwrap();

    assert_eq!(len, original.len());
    assert_eq!(&encoded[..], &original[..]);
}

#[test]
fn test_trun_box_round_trip_with_samples() {

    let original = raw_data_with_samples();
    let trun = TrunBox::decode(&original).unwrap();

    let mut encoded = vec![0u8; trun.encoded_len()];
    let len = trun.encode_into(&mut encoded).unwrap();

    assert_eq!(len, original.len());
    assert_eq!(&encoded[..], &original[..]);
}

#[test]
fn test_trun_box_try_from() {
    let data = raw_data_with_samples();
    let view = TrunBoxView::decode(&data).unwrap();
    let owned = TrunBox::try_from(&view).unwrap();

    assert_eq!(owned.version(), view.version);
    assert_eq!(owned.flags().bits(), view.flags.bits());
    assert_eq!(owned.sample_count(), view.sample_count as usize);
}
