#[allow(unused_imports)]
use mp4_bmff::boxes::sbgp::SbgpBox;
#[allow(unused_imports)]
use mp4_bmff::boxes::sbgp::SbgpBoxView;
#[allow(unused_imports)]
use mp4_bmff::boxes::sbgp::SbgpEntry;
#[allow(unused_imports)]
use mp4_bmff::codec::BoxCodec;
#[allow(unused_imports)]
use mp4_bmff::codec::BoxDecode;
#[allow(unused_imports)]
use mp4_bmff::codec::BoxEncode;
#[allow(unused_imports)]
use mp4_bmff::types::FourCC;

fn raw_v0() -> [u8; 28] {
    [
        0x00, // version = 0
        0x00, 0x00, 0x00, // flags = 0
        b'r', b'o', b'l', b'l', // grouping_type = "roll"
        0x00, 0x00, 0x00, 0x02, // entry_count = 2
        // Entry 1: sample_count = 5, group_description_index = 1
        0x00, 0x00, 0x00, 0x05, 0x00, 0x00, 0x00, 0x01,
        // Entry 2: sample_count = 10, group_description_index = 2
        0x00, 0x00, 0x00, 0x0A, 0x00, 0x00, 0x00, 0x02,
    ]
}

fn raw_v1() -> [u8; 24] {
    [
        0x01, // version = 1
        0x00, 0x00, 0x00, // flags = 0
        b't', b'e', b'l', b'e', // grouping_type = "tele"
        b'p', b'a', b'r', b'm', // grouping_type_parameter = "parm"
        0x00, 0x00, 0x00, 0x01, // entry_count = 1
        0x00, 0x00, 0x00, 0x0F, // sample_count = 15
        0x00, 0x00, 0x00, 0x03, // group_description_index = 3
    ]
}

#[test]
fn test_sbgp_box_view_decode() {
    let data = raw_v0();
    let sbgp = SbgpBoxView::decode(&data).unwrap();

    assert_eq!(sbgp.version, 0);
    assert_eq!(sbgp.flags.bits(), 0);
    assert_eq!(sbgp.grouping_type, FourCC::from(*b"roll"));
    assert!(sbgp.grouping_type_parameter.is_none());
    assert_eq!(sbgp.entry_count, 2);

    let mut entries = sbgp.entries().into_iter();
    let first = entries.next().unwrap();
    assert_eq!(first.sample_count, 5);
    assert_eq!(first.group_description_index, 1);
    let second = entries.next().unwrap();
    assert_eq!(second.sample_count, 10);
    assert_eq!(second.group_description_index, 2);
    assert!(entries.next().is_none());
}

#[test]
fn test_sbgp_box_view_decode_v1() {
    let data = raw_v1();
    let sbgp = SbgpBoxView::decode(&data).unwrap();

    assert_eq!(sbgp.version, 1);
    assert_eq!(sbgp.grouping_type, FourCC::from(*b"tele"));
    assert_eq!(
        sbgp.grouping_type_parameter.unwrap(),
        u32::from_be_bytes(*b"parm")
    );
    assert_eq!(sbgp.entry_count, 1);

    let mut entries = sbgp.entries().into_iter();
    let first = entries.next().unwrap();
    assert_eq!(first.sample_count, 15);
    assert_eq!(first.group_description_index, 3);
    assert!(entries.next().is_none());
}

#[test]
fn test_sbgp_box_view_empty_entries() {
    let data: [u8; 12] = [
        0x00, // version = 0
        0x00, 0x00, 0x00, // flags = 0
        b'r', b'o', b'l', b'l', // grouping_type = "roll"
        0x00, 0x00, 0x00, 0x00, // entry_count = 0
    ];

    let sbgp = SbgpBoxView::decode(&data).unwrap();
    assert_eq!(sbgp.entries().into_iter().count(), 0);
}

#[test]
fn test_sbgp_box_view_invalid_size() {
    // entry_count = 2 but only 1 entry provided
    let data: [u8; 20] = [
        0x00, // version = 0
        0x00, 0x00, 0x00, // flags = 0
        b'r', b'o', b'l', b'l', // grouping_type = "roll"
        0x00, 0x00, 0x00, 0x02, // entry_count = 2
        0x00, 0x00, 0x00, 0x05, 0x00, 0x00, 0x00, 0x01,
    ];

    assert!(SbgpBoxView::decode(&data).is_err());
}

#[test]
fn test_sbgp_box_view_truncated() {
    let data: [u8; 2] = [0x00, 0x00];
    assert!(SbgpBoxView::decode(&data).is_err());
}

#[test]
fn test_sbgp_entry_round_trip() {
    let entry = SbgpEntry {
        sample_count: 12345,
        group_description_index: 67890,
    };

    let bytes = entry.to_bytes();
    let decoded = SbgpEntry::from_bytes(&bytes);

    assert_eq!(decoded.sample_count, entry.sample_count);
    assert_eq!(
        decoded.group_description_index,
        entry.group_description_index
    );
}

#[test]
fn test_sbgp_box_round_trip() {

    let original = raw_v0();
    let owned = SbgpBox::decode(&original).unwrap();

    let mut encoded = vec![0u8; owned.encoded_len()];
    owned.encode_into(&mut encoded).unwrap();
    assert_eq!(encoded, original);
}

#[test]
fn test_sbgp_box_round_trip_v1() {

    let original = raw_v1();
    let owned = SbgpBox::decode(&original).unwrap();

    let mut encoded = vec![0u8; owned.encoded_len()];
    owned.encode_into(&mut encoded).unwrap();
    assert_eq!(encoded, original);
}

#[test]
fn test_sbgp_box_to_owned() {
    let data = raw_v0();
    let view = SbgpBoxView::decode(&data).unwrap();
    let owned = view.to_owned();

    assert_eq!(owned.version, view.version);
    assert_eq!(owned.flags.bits(), view.flags.bits());
    assert_eq!(owned.grouping_type, view.grouping_type);
    assert_eq!(owned.grouping_type_parameter, view.grouping_type_parameter);
    assert_eq!(owned.entries.len() as u32, view.entry_count);

    for (owned_entry, view_entry) in owned.entries.iter().zip(view.entries().into_iter()) {
        assert_eq!(owned_entry.sample_count, view_entry.sample_count);
        assert_eq!(
            owned_entry.group_description_index,
            view_entry.group_description_index
        );
    }
}
