#[allow(unused_imports)]
use mp4_bmff::boxes::hdlr::HdlrBox;
#[allow(unused_imports)]
use mp4_bmff::boxes::hdlr::HdlrBoxView;
#[allow(unused_imports)]
use mp4_bmff::codec::BoxCodec;
#[allow(unused_imports)]
use mp4_bmff::codec::BoxDecode;
#[allow(unused_imports)]
use mp4_bmff::codec::BoxEncode;
#[allow(unused_imports)]
use mp4_bmff::types::FourCC;

fn raw_data() -> [u8; 37] {
    [
        0x00, // version = 0
        0x00, 0x00, 0x00, // flags (3 bytes)
        0x00, 0x00, 0x00, 0x00, // pre_defined (4 bytes)
        b'v', b'i', b'd', b'e', // handler_type = "vide"
        0x00, 0x00, 0x00, 0x00, // reserved[0] (4 bytes)
        0x00, 0x00, 0x00, 0x00, // reserved[1] (4 bytes)
        0x00, 0x00, 0x00, 0x00, // reserved[2] (4 bytes)
        b'V', b'i', b'd', b'e', b'o', b'H', b'a', b'n', b'd', b'l', b'e',
        b'r', // name = "VideoHandler"
        0x00, // null terminator
    ]
}

#[test]
fn test_hdlr_box_view_decode() {
    let data = raw_data();
    let hdlr = HdlrBoxView::decode(&data).unwrap();

    assert_eq!(hdlr.version, 0);
    assert_eq!(hdlr.flags.bits(), 0);
    assert_eq!(hdlr.handler_type, FourCC::new(*b"vide"));
    assert_eq!(hdlr.name, "VideoHandler");
}

#[test]
fn test_hdlr_box_view_empty_name() {
    let data: [u8; 25] = [
        0x00, // version = 0
        0x00, 0x00, 0x00, // flags (3 bytes)
        0x00, 0x00, 0x00, 0x00, // pre_defined (4 bytes)
        b'v', b'i', b'd', b'e', // handler_type = "vide"
        0x00, 0x00, 0x00, 0x00, // reserved[0] (4 bytes)
        0x00, 0x00, 0x00, 0x00, // reserved[1] (4 bytes)
        0x00, 0x00, 0x00, 0x00, // reserved[2] (4 bytes)
        0x00, // empty name with null terminator
    ];

    let hdlr = HdlrBoxView::decode(&data).unwrap();
    assert_eq!(hdlr.version, 0);
    assert_eq!(hdlr.name, "");
}

#[test]
fn test_hdlr_box_view_truncated() {
    let data: [u8; 10] = [0x00; 10]; // too short

    let result = HdlrBoxView::decode(&data);
    assert!(result.is_err());
}

#[test]
fn test_hdlr_box_view_invalid_utf8() {
    let mut data = raw_data();
    // Replace name with invalid UTF-8
    let name_start = 24; // offset where name begins
    data[name_start] = 0xFF;
    data[name_start + 1] = 0xFE;

    let result = HdlrBoxView::decode(&data);
    assert!(result.is_err());
}

#[test]
fn test_hdlr_box_round_trip() {

    let original = raw_data();
    let hdlr = HdlrBox::decode(&original).unwrap();

    let mut encoded = vec![0u8; hdlr.encoded_len()];
    hdlr.encode_into(&mut encoded).unwrap();

    assert_eq!(&encoded[..], &original[..]);
}

#[test]
fn test_hdlr_box_to_owned() {
    let data = raw_data();
    let view = HdlrBoxView::decode(&data).unwrap();
    let owned = view.to_owned();

    assert_eq!(owned.version, view.version);
    assert_eq!(owned.flags.bits(), view.flags.bits());
    assert_eq!(owned.handler_type, view.handler_type);
    assert_eq!(owned.name, view.name);
}
