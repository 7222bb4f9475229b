#[allow(unused_imports)]
use mp4_bmff::boxes::dmix::DmixBox;
#[allow(unused_imports)]
use mp4_bmff::boxes::dmix::DmixBoxView;
#[allow(unused_imports)]
use mp4_bmff::boxes::dmix::DownmixCoefficient;
#[allow(unused_imports)]
use mp4_bmff::codec::BoxCodec;
#[allow(unused_imports)]
use mp4_bmff::codec::BoxDecode;
#[allow(unused_imports)]
use mp4_bmff::codec::BoxEncode;

#[test]
fn decode_in_stream() {
    let data: [u8; 7] = [
        0x00, // version = 0
        0x00, 0x00, 0x00, // flags = 0
        0x01, // target_layout = 1
        0x02, // reserved(0) + target_channel_count = 2
        0x85, // in_stream(1) + downmix_id = 5
    ];
    let view = DmixBoxView::decode(&data).unwrap();

    assert_eq!(view.version, 0);
    assert_eq!(view.target_layout, 1);
    assert_eq!(view.target_channel_count, 2);
    assert!(view.in_stream);
    assert_eq!(view.downmix_id, 5);
    assert!(view.coefficients.is_none());
}

#[test]
fn decode_out_of_stream() {
    let data: [u8; 9] = [
        0x00, // version = 0
        0x00, 0x00, 0x00, // flags = 0
        0x01, // target_layout = 1
        0x02, // reserved(0) + target_channel_count = 2
        0x05, // in_stream(0) + downmix_id = 5
        0xAB, 0xCD, // coefficient data
    ];
    let view = DmixBoxView::decode(&data).unwrap();

    assert!(!view.in_stream);
    assert_eq!(view.downmix_id, 5);
    assert_eq!(
        view.coefficients.as_ref().map(|c| c.as_bytes()),
        Some(&[0xAB, 0xCD][..])
    );
}

#[test]
fn decode_truncated() {
    let data: [u8; 3] = [0x00; 3];
    assert!(DmixBoxView::decode(&data).is_err());
}

#[test]
fn round_trip_in_stream() {

    let original: [u8; 7] = [0x00, 0x00, 0x00, 0x00, 0x01, 0x02, 0x85];
    let owned = DmixBox::decode(&original).unwrap();

    let mut encoded = vec![0u8; owned.encoded_len()];
    owned.encode_into(&mut encoded).unwrap();

    assert_eq!(&encoded[..], &original[..]);
}

#[test]
fn round_trip_out_of_stream() {

    let original: [u8; 9] = [0x00, 0x00, 0x00, 0x00, 0x01, 0x02, 0x05, 0xAB, 0xCD];
    let owned = DmixBox::decode(&original).unwrap();

    let mut encoded = vec![0u8; owned.encoded_len()];
    owned.encode_into(&mut encoded).unwrap();

    assert_eq!(&encoded[..], &original[..]);
}

#[test]
fn to_owned_preserves_fields() {
    let data: [u8; 9] = [0x00, 0x00, 0x00, 0x00, 0x03, 0x04, 0x06, 0xFF, 0xEE];
    let view = DmixBoxView::decode(&data).unwrap();
    let owned = view.to_owned();

    assert_eq!(owned.version, view.version);
    assert_eq!(owned.target_layout, view.target_layout);
    assert_eq!(owned.target_channel_count, view.target_channel_count);
    assert_eq!(owned.in_stream, view.in_stream);
    assert_eq!(owned.downmix_id, view.downmix_id);
    assert_eq!(
        owned.coefficients.as_ref().map(|c| c.as_bytes()),
        view.coefficients.as_ref().map(|c| c.as_bytes()),
    );
}

#[test]
fn downmix_matrix_coefficients_iter() {
    // target_channel_count=2, base_channel_count=3 → 6 coefficients
    // Packed as 4-bit nibbles: [0xAB, 0xCD, 0xEF] → [A, B, C, D, E, F]
    let data: [u8; 10] = [
        0x00, // version = 0
        0x00, 0x00, 0x00, // flags = 0
        0x01, // target_layout = 1
        0x02, // target_channel_count = 2
        0x05, // in_stream(0) + downmix_id = 5
        0xAB, 0xCD, 0xEF, // 6 coefficients packed as 4-bit nibbles
    ];
    let view = DmixBoxView::decode(&data).unwrap();
    let matrix = view.coefficients.as_ref().unwrap();

    assert_eq!(matrix.target_channel_count(), 2);
    let coeffs: Vec<_> = matrix.coefficients(3);
    assert_eq!(coeffs.len(), 6); // 2 × 3
    let raw: Vec<u8> = coeffs.iter().map(|c| c.raw()).collect();
    assert_eq!(raw, vec![0x0A, 0x0B, 0x0C, 0x0D, 0x0E, 0x0F]);
}

#[test]
fn downmix_coefficients_none_for_in_stream() {
    let data: [u8; 7] = [
        0x00, 0x00, 0x00, 0x00, 0x01, 0x02, 0x85, // in_stream = true
    ];
    let view = DmixBoxView::decode(&data).unwrap();
    assert!(view.coefficients.is_none());
}

#[test]
fn downmix_matrix_exact_size() {
    let data: [u8; 9] = [
        0x00, 0x00, 0x00, 0x00, 0x01, 0x01, // target_channel_count = 1
        0x05, // in_stream(0)
        0xAB, 0xCD,
    ];
    let view = DmixBoxView::decode(&data).unwrap();
    let matrix = view.coefficients.as_ref().unwrap();

    let iter = matrix.coefficients(2);
    assert_eq!(iter.len(), 2); // 1 × 2
}



#[test]
fn downmix_coefficient_display() {
    let c = DownmixCoefficient::new(0x0);
    assert_eq!(c.display(), "0.0 dB");

    let c = DownmixCoefficient::new(0x6);
    assert_eq!(c.display(), "-3.0 dB");
}
