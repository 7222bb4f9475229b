#[allow(unused_imports)]
use mp4_bmff::rawbox::BoxIter;
#[allow(unused_imports)]
use mp4_bmff::boxes::edts::EdtsBox;
#[allow(unused_imports)]
use mp4_bmff::boxes::edts::EdtsBoxView;
#[allow(unused_imports)]
use mp4_bmff::codec::BoxCodec;
#[allow(unused_imports)]
use mp4_bmff::codec::BoxDecode;
#[allow(unused_imports)]
use mp4_bmff::codec::BoxEncode;

fn raw_data_empty() -> [u8; 0] {
    []
}

fn raw_data_with_elst() -> [u8; 28] {
    [
        // elst box
        0x00, 0x00, 0x00, 0x1C, // size = 28
        b'e', b'l', b's', b't', // type = "elst"
        0x00, // version = 0
        0x00, 0x00, 0x00, // flags = 0
        0x00, 0x00, 0x00, 0x01, // entry_count = 1
        // entry (v0: segment_duration=4, media_time=4, rate=4 = 12 bytes)
        0x00, 0x00, 0x03, 0xE8, // segment_duration = 1000
        0x00, 0x00, 0x00, 0x00, // media_time = 0
        0x00, 0x01, 0x00, 0x00, // media_rate = 1.0 (16.16 fixed point)
    ]
}

#[test]
fn test_edts_box_view_decode_empty() {
    let data = raw_data_empty();
    let edts = EdtsBoxView::decode(&data).unwrap();

    assert_eq!(count_boxes(edts.boxes()), 0);
    assert!(edts.elst().unwrap().is_none());
}

#[test]
fn test_edts_box_view_decode_with_elst() {
    let data = raw_data_with_elst();
    let edts = EdtsBoxView::decode(&data).unwrap();

    let elst = edts.elst().unwrap();
    assert!(elst.is_some());

    let elst = elst.unwrap();
    assert_eq!(elst.entry_count, 1);
}

#[test]
fn test_edts_box_round_trip() {

    let original = raw_data_with_elst();
    let edts = EdtsBox::decode(&original).unwrap();

    let mut encoded = vec![0u8; edts.encoded_len()];
    let len = edts.encode_into(&mut encoded).unwrap();

    assert_eq!(len, original.len());
    assert_eq!(&encoded[..], &original[..]);
}

#[test]
fn test_edts_box_try_from() {
    let data = raw_data_with_elst();
    let view = EdtsBoxView::decode(&data).unwrap();
    let owned = EdtsBox::try_from(&view).unwrap();

    assert!(owned.elst.is_some());
}

fn count_boxes(mut it: BoxIter<'_>) -> usize {
    let mut n = 0;
    while it.next().is_some() {
        n += 1;
    }
    n
}
