#[allow(unused_imports)]
use mp4_bmff::boxes::trgr::TrgrBox;
#[allow(unused_imports)]
use mp4_bmff::boxes::trgr::TrgrBoxView;
#[allow(unused_imports)]
use mp4_bmff::codec::BoxCodec;
#[allow(unused_imports)]
use mp4_bmff::codec::BoxDecode;
#[allow(unused_imports)]
use mp4_bmff::codec::BoxEncode;
#[allow(unused_imports)]
use mp4_bmff::types::BoxType;
#[allow(unused_imports)]
use mp4_bmff::types::FourCC;

fn raw_data() -> [u8; 24] {
    [
        // First child box: "msrc" track group type
        0x00, 0x00, 0x00, 0x0C, // size = 12 (8 header + 4 payload)
        b'm', b's', b'r', b'c', // type = "msrc"
        0x00, 0x00, 0x00, 0x01, // track_group_id = 1
        // Second child box: "cstg" track group type
        0x00, 0x00, 0x00, 0x0C, // size = 12 (8 header + 4 payload)
        b'c', b's', b't', b'g', // type = "cstg"
        0x00, 0x00, 0x00, 0x02, // track_group_id = 2
    ]
}

#[test]
fn test_trgr_box_view_decode() {
    let data = raw_data();
    let trgr_view = TrgrBoxView::decode(&data).unwrap();

    let mut track_groups = trgr_view.track_groups().unwrap().into_iter();

    // First track group: msrc
    let (boxtype, track_group_box) = track_groups.next().unwrap();
    assert_eq!(boxtype, BoxType::new(FourCC::new(*b"msrc")));
    assert_eq!(track_group_box.track_group_id, 1);

    // Second track group: cstg
    let (boxtype, track_group_box) = track_groups.next().unwrap();
    assert_eq!(boxtype, BoxType::new(FourCC::new(*b"cstg")));
    assert_eq!(track_group_box.track_group_id, 2);

    assert!(track_groups.next().is_none());
}

#[test]
fn test_trgr_box_view_empty_track_groups() {
    let data: [u8; 0] = [];
    let trgr_view = TrgrBoxView::decode(&data).unwrap();

    assert!(trgr_view.track_groups().unwrap().into_iter().next().is_none());
}

#[test]
fn test_trgr_box_round_trip() {

    let original = raw_data();
    let trgr_box = TrgrBox::decode(&original).unwrap();

    let mut encoded = vec![0u8; trgr_box.encoded_len()];
    trgr_box.encode_into(&mut encoded).unwrap();

    assert_eq!(&encoded[..], &original[..]);
}

#[test]
fn test_trgr_box_to_owned() {
    let data = raw_data();
    let view = TrgrBoxView::decode(&data).unwrap();
    let owned = TrgrBox::try_from(&view).unwrap();

    assert_eq!(owned.track_groups.len(), 2);
    assert_eq!(owned.track_groups[0].0, BoxType::new(FourCC::new(*b"msrc")));
    assert_eq!(owned.track_groups[0].1.track_group_id, 1);
    assert_eq!(owned.track_groups[1].0, BoxType::new(FourCC::new(*b"cstg")));
    assert_eq!(owned.track_groups[1].1.track_group_id, 2);
}
