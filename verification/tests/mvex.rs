#[allow(unused_imports)]
use mp4_bmff::rawbox::BoxIter;
#[allow(unused_imports)]
use mp4_bmff::boxes::mvex::MvexBox;
#[allow(unused_imports)]
use mp4_bmff::boxes::mvex::MvexBoxView;
#[allow(unused_imports)]
use mp4_bmff::codec::BoxCodec;
#[allow(unused_imports)]
use mp4_bmff::codec::BoxDecode;
#[allow(unused_imports)]
use mp4_bmff::codec::BoxEncode;

fn raw_data_empty() -> [u8; 0] {
    []
}

fn raw_data_with_trex() -> [u8; 32] {
    [
        // trex box
        0x00, 0x00, 0x00, 0x20, // size = 32
        b't', b'r', b'e', b'x', // type = "trex"
        0x00, // version = 0
        0x00, 0x00, 0x00, // flags = 0
        0x00, 0x00, 0x00, 0x01, // track_id = 1
        0x00, 0x00, 0x00, 0x01, // default_sample_description_index = 1
        0x00, 0x00, 0x03, 0xE8, // default_sample_duration = 1000
        0x00, 0x00, 0x00, 0x00, // default_sample_size = 0
        0x00, 0x00, 0x00, 0x00, // default_sample_flags = 0
    ]
}

fn raw_data_with_mehd_and_trex() -> [u8; 48] {
    [
        // mehd box (version 0)
        0x00, 0x00, 0x00, 0x10, // size = 16
        b'm', b'e', b'h', b'd', // type = "mehd"
        0x00, // version = 0
        0x00, 0x00, 0x00, // flags = 0
        0x00, 0x00, 0x10, 0x00, // fragment_duration = 4096
        // trex box
        0x00, 0x00, 0x00, 0x20, // size = 32
        b't', b'r', b'e', b'x', // type = "trex"
        0x00, // version = 0
        0x00, 0x00, 0x00, // flags = 0
        0x00, 0x00, 0x00, 0x01, // track_id = 1
        0x00, 0x00, 0x00, 0x01, // default_sample_description_index = 1
        0x00, 0x00, 0x03, 0xE8, // default_sample_duration = 1000
        0x00, 0x00, 0x00, 0x00, // default_sample_size = 0
        0x00, 0x00, 0x00, 0x00, // default_sample_flags = 0
    ]
}

#[test]
fn test_mvex_box_view_decode_empty() {
    let data = raw_data_empty();
    let mvex = MvexBoxView::decode(&data).unwrap();

    assert_eq!(count_boxes(mvex.boxes()), 0);
    assert!(mvex.mehd().unwrap().is_none());
    assert_eq!(mvex.trexs().unwrap().len(), 0);
}

#[test]
fn test_mvex_box_view_with_trex() {
    let data = raw_data_with_trex();
    let mvex = MvexBoxView::decode(&data).unwrap();

    assert!(mvex.mehd().unwrap().is_none());

    let trexs: Vec<_> = mvex.trexs().unwrap();
    assert_eq!(trexs.len(), 1);

    let trex = &trexs[0];
    assert_eq!(trex.track_id, 1);
}

#[test]
fn test_mvex_box_view_with_mehd_and_trex() {
    let data = raw_data_with_mehd_and_trex();
    let mvex = MvexBoxView::decode(&data).unwrap();

    let mehd = mvex.mehd().unwrap();
    assert!(mehd.is_some());
    assert_eq!(mehd.unwrap().fragment_duration, 4096);

    let trexs: Vec<_> = mvex.trexs().unwrap();
    assert_eq!(trexs.len(), 1);
}

#[test]
fn test_mvex_box_try_from() {
    let data = raw_data_with_mehd_and_trex();
    let view = MvexBoxView::decode(&data).unwrap();
    let owned = MvexBox::try_from(&view).unwrap();

    assert!(owned.mehd.is_some());
    assert_eq!(owned.trexs.len(), 1);
}

#[test]
fn test_mvex_box_round_trip() {

    let original = raw_data_with_mehd_and_trex();
    let mvex = MvexBox::decode(&original).unwrap();

    let mut encoded = vec![0u8; mvex.encoded_len()];
    let len = mvex.encode_into(&mut encoded).unwrap();

    assert_eq!(len, original.len());
    assert_eq!(&encoded[..], &original[..]);
}

fn count_boxes(mut it: BoxIter<'_>) -> usize {
    let mut n = 0;
    while it.next().is_some() {
        n += 1;
    }
    n
}
