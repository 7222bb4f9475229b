#[allow(unused_imports)]
use mp4_bmff::boxes::free::FreeBox;
#[allow(unused_imports)]
use mp4_bmff::boxes::free::FreeBoxView;
#[allow(unused_imports)]
use mp4_bmff::codec::BoxCodec;
#[allow(unused_imports)]
use mp4_bmff::codec::BoxDecode;
#[allow(unused_imports)]
use mp4_bmff::codec::BoxEncode;

#[test]
fn test_free_box_view_decode() {
    let data = b"example free space data";
    let free_box_view = FreeBoxView::decode(data).unwrap();
    assert_eq!(free_box_view.data, data);
}

#[test]
fn test_free_box_view_empty() {
    let data: &[u8] = &[];
    let free_box_view = FreeBoxView::decode(data).unwrap();
    assert_eq!(free_box_view.data.len(), 0);
}

#[test]
fn test_free_box_round_trip() {

    let original = b"round trip test data";
    let free_box = FreeBox::decode(original).unwrap();

    let mut encoded = vec![0u8; free_box.encoded_len()];
    free_box.encode_into(&mut encoded).unwrap();

    assert_eq!(&encoded[..], original);
}

#[test]
fn test_free_box_to_owned() {
    let data = b"to_owned test";
    let view = FreeBoxView::decode(data).unwrap();
    let owned = view.to_owned();

    assert_eq!(owned.data, data);
}
