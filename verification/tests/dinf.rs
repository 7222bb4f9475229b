#[allow(unused_imports)]
use mp4_bmff::rawbox::BoxIter;
#[allow(unused_imports)]
use mp4_bmff::boxes::dinf::DinfBox;
#[allow(unused_imports)]
use mp4_bmff::boxes::dinf::DinfBoxView;
#[allow(unused_imports)]
use mp4_bmff::codec::BoxCodec;
#[allow(unused_imports)]
use mp4_bmff::codec::BoxDecode;
#[allow(unused_imports)]
use mp4_bmff::codec::BoxEncode;

fn raw_data() -> [u8; 28] {
    [
        // dref box
        0x00, 0x00, 0x00, 0x1C, // size = 28
        b'd', b'r', b'e', b'f', // type = "dref"
        0x00, // version = 0
        0x00, 0x00, 0x00, // flags = 0
        0x00, 0x00, 0x00, 0x01, // entry_count = 1
        // url box (self-contained)
        0x00, 0x00, 0x00, 0x0C, // size = 12
        b'u', b'r', b'l', b' ', // type = "url "
        0x00, // version = 0
        0x00, 0x00, 0x01, // flags = SELF_CONTAINED
    ]
}

#[test]
fn test_dinf_box_view_decode() {
    let data = raw_data();
    let dinf = DinfBoxView::decode(&data).unwrap();

    assert_eq!(count_boxes(dinf.boxes()), 1);
}

#[test]
fn test_dinf_box_view_dref() {
    let data = raw_data();
    let dinf = DinfBoxView::decode(&data).unwrap();
    let dref = dinf.dref().unwrap();

    assert_eq!(dref.entry_count, 1);
}

#[test]
fn test_dinf_box_view_missing_dref() {
    let data: [u8; 0] = [];
    let dinf = DinfBoxView::decode(&data).unwrap();
    let result = dinf.dref();

    assert!(result.is_err());
}

#[test]
fn test_dinf_box_round_trip() {

    let original = raw_data();
    let dinf = DinfBox::decode(&original).unwrap();

    let mut encoded = vec![0u8; dinf.encoded_len()];
    dinf.encode_into(&mut encoded).unwrap();

    assert_eq!(&encoded[..], &original[..]);
}

#[test]
fn test_dinf_box_try_from() {
    let data = raw_data();
    let view = DinfBoxView::decode(&data).unwrap();
    let owned = DinfBox::try_from(&view).unwrap();

    assert_eq!(owned.dref.entries.len(), 1);
}

fn count_boxes(mut it: BoxIter<'_>) -> usize {
    let mut n = 0;
    while it.next().is_some() {
        n += 1;
    }
    n
}
