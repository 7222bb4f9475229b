#[allow(unused_imports)]
use mp4_bmff::boxes::pasp::PaspBox;
#[allow(unused_imports)]
use mp4_bmff::codec::BoxCodec;
#[allow(unused_imports)]
use mp4_bmff::codec::BoxDecode;
#[allow(unused_imports)]
use mp4_bmff::codec::BoxEncode;

fn raw_data() -> [u8; 8] {
    [
        0x00, 0x00, 0x00, 0x0A, // h_spacing = 10 (4 bytes)
        0x00, 0x00, 0x00, 0x0B, // v_spacing = 11 (4 bytes)
    ]
}

#[test]
fn test_pasp_box_decode() {
    let data = raw_data();
    let pasp = PaspBox::decode(&data).unwrap();

    assert_eq!(pasp.h_spacing, 10);
    assert_eq!(pasp.v_spacing, 11);
}

#[test]
fn test_pasp_box_decode_truncated() {
    let data: [u8; 4] = [0x00; 4];
    let result = PaspBox::decode(&data);
    assert!(result.is_err());
}

#[test]
fn test_pasp_box_round_trip() {
    let original = raw_data();
    let pasp = PaspBox::decode(&original).unwrap();

    let mut encoded = [0u8; 8];
    let len = pasp.encode_into(&mut encoded).unwrap();

    assert_eq!(len, original.len());
    assert_eq!(&encoded[..], &original[..]);
}
