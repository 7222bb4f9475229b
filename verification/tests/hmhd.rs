#[allow(unused_imports)]
use mp4_bmff::boxes::hmhd::HmhdBox;
#[allow(unused_imports)]
use mp4_bmff::codec::BoxCodec;
#[allow(unused_imports)]
use mp4_bmff::codec::BoxDecode;
#[allow(unused_imports)]
use mp4_bmff::codec::BoxEncode;

fn raw_data() -> [u8; 20] {
    [
        0x00, // version = 0
        0x00, 0x00, 0x00, // flags (3 bytes)
        0x00, 0x10, // max_pdu_size = 16 (2 bytes)
        0x00, 0x08, // avg_pdu_size = 8 (2 bytes)
        0x00, 0x01, 0x00, 0x00, // max_bit_rate = 65536 (4 bytes)
        0x00, 0x00, 0x80, 0x00, // avg_bit_rate = 32768 (4 bytes)
        0x00, 0x00, 0x00, 0x00, // reserved (4 bytes)
    ]
}

#[test]
fn test_hmhd_box_decode() {
    let data = raw_data();
    let hmhd = HmhdBox::decode(&data).unwrap();

    assert_eq!(hmhd.version, 0);
    assert_eq!(hmhd.flags.bits(), 0);
    assert_eq!(hmhd.max_pdu_size, 16);
    assert_eq!(hmhd.avg_pdu_size, 8);
    assert_eq!(hmhd.max_bit_rate, 65536);
    assert_eq!(hmhd.avg_bit_rate, 32768);
}

#[test]
fn test_hmhd_box_truncated() {
    let data: [u8; 10] = [0x00; 10]; // too short

    let result = HmhdBox::decode(&data);
    assert!(result.is_err());
}

#[test]
fn test_hmhd_box_round_trip() {
    let original = raw_data();
    let hmhd = HmhdBox::decode(&original).unwrap();

    let mut encoded = vec![0u8; hmhd.encoded_len()];
    hmhd.encode_into(&mut encoded).unwrap();

    assert_eq!(&encoded[..], &original[..]);
}
