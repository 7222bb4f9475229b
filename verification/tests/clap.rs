#[allow(unused_imports)]
use mp4_bmff::boxes::clap::ClapBox;
#[allow(unused_imports)]
use mp4_bmff::codec::BoxCodec;
#[allow(unused_imports)]
use mp4_bmff::codec::BoxDecode;
#[allow(unused_imports)]
use mp4_bmff::codec::BoxEncode;

fn raw_data() -> [u8; 32] {
    [
        0x00, 0x00, 0x02, 0xD0, // clean_aperture_width numerator = 720
        0x00, 0x00, 0x00, 0x01, // clean_aperture_width denominator = 1
        0x00, 0x00, 0x01, 0xE0, // clean_aperture_height numerator = 480
        0x00, 0x00, 0x00, 0x01, // clean_aperture_height denominator = 1
        0x00, 0x00, 0x00, 0x00, // horiz_offset numerator = 0
        0x00, 0x00, 0x00, 0x01, // horiz_offset denominator = 1
        0x00, 0x00, 0x00, 0x00, // vert_offset numerator = 0
        0x00, 0x00, 0x00, 0x01, // vert_offset denominator = 1
    ]
}

#[test]
fn test_clap_box_decode() {
    let data = raw_data();
    let clap = ClapBox::decode(&data).unwrap();

    assert_eq!(clap.clean_aperture_width.into_raw(), (720, 1));
    assert_eq!(clap.clean_aperture_height.into_raw(), (480, 1));
    assert_eq!(clap.horiz_offset.into_raw(), (0, 1));
    assert_eq!(clap.vert_offset.into_raw(), (0, 1));
}

#[test]
fn test_clap_box_decode_truncated() {
    let data: [u8; 16] = [0x00; 16];
    let result = ClapBox::decode(&data);
    assert!(result.is_err());
}

#[test]
fn test_clap_box_round_trip() {
    let original = raw_data();
    let clap = ClapBox::decode(&original).unwrap();

    let mut encoded = [0u8; 32];
    let len = clap.encode_into(&mut encoded).unwrap();

    assert_eq!(len, original.len());
    assert_eq!(&encoded[..], &original[..]);
}
