#[allow(unused_imports)]
use mp4_bmff::boxes::colr::ColourType;
#[allow(unused_imports)]
use mp4_bmff::boxes::colr::ColrBox;
#[allow(unused_imports)]
use mp4_bmff::boxes::colr::ColrBoxView;
#[allow(unused_imports)]
use mp4_bmff::codec::BoxCodec;
#[allow(unused_imports)]
use mp4_bmff::codec::BoxDecode;
#[allow(unused_imports)]
use mp4_bmff::codec::BoxEncode;

fn raw_data_nclx() -> [u8; 11] {
    [
        b'n', b'c', b'l', b'x', // colour_type = "nclx"
        0x00, 0x01, // colour_primaries = 1 (BT.709)
        0x00, 0x0D, // transfer_characteristics = 13 (sRGB)
        0x00, 0x01, // matrix_coefficients = 1 (BT.709)
        0x80, // full_range_flag = true
    ]
}

fn raw_data_ricc() -> [u8; 8] {
    [
        b'r', b'I', b'C', b'C', // colour_type = "rICC"
        0xDE, 0xAD, 0xBE, 0xEF, // icc_profile (4 bytes)
    ]
}

#[test]
fn test_colr_box_view_decode_nclx() {
    let data = raw_data_nclx();
    let colr = ColrBoxView::decode(&data).unwrap();

    match colr.colour_type {
        ColourType::Nclx {
            colour_primaries,
            transfer_characteristics,
            matrix_coefficients,
            full_range_flag,
        } => {
            assert_eq!(colour_primaries, 1);
            assert_eq!(transfer_characteristics, 13);
            assert_eq!(matrix_coefficients, 1);
            assert!(full_range_flag);
        }
        _ => panic!("expected Nclx"),
    }
}

#[test]
fn test_colr_box_view_decode_ricc() {
    let data = raw_data_ricc();
    let colr = ColrBoxView::decode(&data).unwrap();

    match colr.colour_type {
        ColourType::RestrictedICC { icc_profile } => {
            assert_eq!(icc_profile, &[0xDE, 0xAD, 0xBE, 0xEF]);
        }
        _ => panic!("expected RestrictedICC"),
    }
}

#[test]
fn test_colr_box_view_decode_prof() {
    let data = [
        b'p', b'r', b'o', b'f', // colour_type = "prof"
        0x01, 0x02, // icc_profile (2 bytes)
    ];
    let colr = ColrBoxView::decode(&data).unwrap();

    match colr.colour_type {
        ColourType::UnrestrictedICC { icc_profile } => {
            assert_eq!(icc_profile, &[0x01, 0x02]);
        }
        _ => panic!("expected UnrestrictedICC"),
    }
}

#[test]
fn test_colr_box_view_decode_invalid_type() {
    let data = [b'x', b'y', b'z', b'w'];
    let result = ColrBoxView::decode(&data);
    assert!(result.is_err());
}

#[test]
fn test_colr_box_view_decode_truncated() {
    let data: [u8; 2] = [0x00; 2];
    let result = ColrBoxView::decode(&data);
    assert!(result.is_err());
}

#[test]
fn test_colr_box_round_trip_nclx() {

    let original = raw_data_nclx();
    let colr = ColrBox::decode(&original).unwrap();

    let mut encoded = vec![0u8; colr.encoded_len()];
    colr.encode_into(&mut encoded).unwrap();

    assert_eq!(&encoded[..], &original[..]);
}

#[test]
fn test_colr_box_round_trip_ricc() {

    let original = raw_data_ricc();
    let colr = ColrBox::decode(&original).unwrap();

    let mut encoded = vec![0u8; colr.encoded_len()];
    colr.encode_into(&mut encoded).unwrap();

    assert_eq!(&encoded[..], &original[..]);
}

#[test]
fn test_colr_box_try_from() {
    let data = raw_data_nclx();
    let view = ColrBoxView::decode(&data).unwrap();
    let owned = ColrBox::try_from(&view).unwrap();

    match owned.colour_type {
        ColourType::Nclx {
            colour_primaries,
            transfer_characteristics,
            matrix_coefficients,
            full_range_flag,
        } => {
            assert_eq!(colour_primaries, 1);
            assert_eq!(transfer_characteristics, 13);
            assert_eq!(matrix_coefficients, 1);
            assert!(full_range_flag);
        }
        _ => panic!("expected Nclx"),
    }
}
