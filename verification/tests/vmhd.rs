#[allow(unused_imports)]
use mp4_bmff::boxes::vmhd::VmhdBox;
#[allow(unused_imports)]
use mp4_bmff::codec::BoxCodec;
#[allow(unused_imports)]
use mp4_bmff::codec::BoxDecode;
#[allow(unused_imports)]
use mp4_bmff::codec::BoxEncode;

fn raw_data() -> [u8; 12] {
    [
        0x00, // version = 0
        0x00, 0x00, 0x01, // flags = 1 (quicktime compatibility)
        0x00, 0x00, // graphics_mode = 0
        0x80, 0x00, // opcolor[0] = 32768
        0x80, 0x00, // opcolor[1] = 32768
        0x80, 0x00, // opcolor[2] = 32768
    ]
}

#[test]
fn test_vmhd_box_decode() {
    let data = raw_data();
    let vmhd = VmhdBox::decode(&data).unwrap();

    assert_eq!(vmhd.version, 0);
    assert_eq!(vmhd.flags.bits(), 1);
    assert_eq!(vmhd.graphics_mode, 0);
    assert_eq!(vmhd.opcolor, [32768, 32768, 32768]);
}

#[test]
fn test_vmhd_box_decode_truncated() {
    let data: [u8; 6] = [0x00; 6];
    let result = VmhdBox::decode(&data);
    assert!(result.is_err());
}

#[test]
fn test_vmhd_box_round_trip() {
    let original = raw_data();
    let vmhd = VmhdBox::decode(&original).unwrap();

    let mut encoded = [0u8; 12];
    let len = vmhd.encode_into(&mut encoded).unwrap();

    assert_eq!(len, original.len());
    assert_eq!(&encoded[..], &original[..]);
}
