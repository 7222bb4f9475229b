#[allow(unused_imports)]
use mp4_bmff::boxes::chnl::ChannelLayout;
#[allow(unused_imports)]
use mp4_bmff::boxes::chnl::ChnlBox;
#[allow(unused_imports)]
use mp4_bmff::boxes::chnl::ChnlBoxView;
#[allow(unused_imports)]
use mp4_bmff::codec::BoxCodec;
#[allow(unused_imports)]
use mp4_bmff::codec::BoxDecode;
#[allow(unused_imports)]
use mp4_bmff::codec::BoxEncode;

const CHANNEL_STRUCTURED: u8 = 1;
const OBJECT_STRUCTURED: u8 = 2;

fn raw_data_predefined() -> [u8; 14] {
    [
        0x00, // version = 0
        0x00, 0x00, 0x00, // flags = 0
        0x01, // stream_structure = CHANNEL_STRUCTURED
        0x02, // defined_layout = 2 (predefined)
        0x00, 0x00, 0x00, 0x00, 0x00, 0x00, 0x00, 0x03, // omitted_channels_map = 3
    ]
}

fn raw_data_explicit() -> [u8; 7] {
    [
        0x00, // version = 0
        0x00, 0x00, 0x00, // flags = 0
        0x01, // stream_structure = CHANNEL_STRUCTURED
        0x00, // defined_layout = 0 (explicit)
        0x01, // speaker position data (1 byte)
    ]
}

#[test]
fn test_chnl_box_view_decode_predefined() {
    let data = raw_data_predefined();
    let chnl = ChnlBoxView::decode(&data).unwrap();

    assert_eq!(chnl.version, 0);
    assert_eq!(chnl.flags.bits(), 0);
    assert_eq!(chnl.stream_structure, CHANNEL_STRUCTURED);
    match chnl.channel_layout {
        Some(ChannelLayout::Predefined {
            defined_layout,
            omitted_channels_map,
        }) => {
            assert_eq!(defined_layout, 2);
            assert_eq!(omitted_channels_map, 3);
        }
        _ => panic!("expected Predefined"),
    }
    assert!(chnl.object_count.is_none());
}

#[test]
fn test_chnl_box_view_decode_explicit() {
    let data = raw_data_explicit();
    let chnl = ChnlBoxView::decode(&data).unwrap();

    assert_eq!(chnl.stream_structure, CHANNEL_STRUCTURED);
    match chnl.channel_layout {
        Some(ChannelLayout::Explicit(data)) => {
            assert_eq!(data, &[0x01]);
        }
        _ => panic!("expected Explicit"),
    }
}

#[test]
fn test_chnl_box_view_decode_object_structured() {
    let data: [u8; 6] = [
        0x00, // version = 0
        0x00, 0x00, 0x00, // flags = 0
        0x02, // stream_structure = OBJECT_STRUCTURED
        0x04, // object_count = 4
    ];
    let chnl = ChnlBoxView::decode(&data).unwrap();

    assert_eq!(chnl.stream_structure, OBJECT_STRUCTURED);
    assert!(chnl.channel_layout.is_none());
    assert_eq!(chnl.object_count, Some(4));
}

#[test]
fn test_chnl_box_view_decode_truncated() {
    let data: [u8; 3] = [0x00; 3];
    let result = ChnlBoxView::decode(&data);
    assert!(result.is_err());
}

#[test]
fn test_chnl_box_round_trip_predefined() {

    let original = raw_data_predefined();
    let chnl = ChnlBox::decode(&original).unwrap();

    let mut encoded = vec![0u8; chnl.encoded_len()];
    chnl.encode_into(&mut encoded).unwrap();

    assert_eq!(&encoded[..], &original[..]);
}

#[test]
fn test_chnl_box_round_trip_explicit() {

    let original = raw_data_explicit();
    let chnl = ChnlBox::decode(&original).unwrap();

    let mut encoded = vec![0u8; chnl.encoded_len()];
    chnl.encode_into(&mut encoded).unwrap();

    assert_eq!(&encoded[..], &original[..]);
}

#[test]
fn test_chnl_box_to_owned() {
    let data = raw_data_predefined();
    let view = ChnlBoxView::decode(&data).unwrap();
    let owned = view.to_owned();

    assert_eq!(owned.version, view.version);
    assert_eq!(owned.flags.bits(), view.flags.bits());
    assert_eq!(owned.stream_structure, view.stream_structure);
    assert_eq!(owned.object_count, view.object_count);
}

#[test]
fn test_chnl_box_view_decode_no_flags() {
    let data: [u8; 5] = [
        0x00, // version = 0
        0x00, 0x00, 0x00, // flags = 0
        0x00, // stream_structure = 0 (no flags)
    ];
    let chnl = ChnlBoxView::decode(&data).unwrap();

    assert_eq!(chnl.stream_structure, 0);
    assert!(chnl.channel_layout.is_none());
    assert!(chnl.object_count.is_none());
}

#[test]
fn test_chnl_box_view_decode_both_flags_predefined() {
    let data: [u8; 15] = [
        0x00, // version = 0
        0x00, 0x00, 0x00, // flags = 0
        0x03, // stream_structure = CHANNEL_STRUCTURED | OBJECT_STRUCTURED
        0x02, // defined_layout = 2 (predefined)
        0x00, 0x00, 0x00, 0x00, 0x00, 0x00, 0x00, 0x03, // omitted_channels_map = 3
        0x05, // object_count = 5
    ];
    let chnl = ChnlBoxView::decode(&data).unwrap();

    assert_eq!(
        chnl.stream_structure,
        CHANNEL_STRUCTURED | OBJECT_STRUCTURED
    );
    match chnl.channel_layout {
        Some(ChannelLayout::Predefined {
            defined_layout,
            omitted_channels_map,
        }) => {
            assert_eq!(defined_layout, 2);
            assert_eq!(omitted_channels_map, 3);
        }
        _ => panic!("expected Predefined"),
    }
    assert_eq!(chnl.object_count, Some(5));
}

#[test]
fn test_chnl_box_view_decode_both_flags_explicit() {
    let data: [u8; 9] = [
        0x00, // version = 0
        0x00, 0x00, 0x00, // flags = 0
        0x03, // stream_structure = CHANNEL_STRUCTURED | OBJECT_STRUCTURED
        0x00, // defined_layout = 0 (explicit)
        0x01, 0x02, // speaker positions (2 channels)
        0x03, // object_count = 3
    ];
    let chnl = ChnlBoxView::decode(&data).unwrap();

    assert_eq!(
        chnl.stream_structure,
        CHANNEL_STRUCTURED | OBJECT_STRUCTURED
    );
    match chnl.channel_layout {
        Some(ChannelLayout::Explicit(data)) => {
            assert_eq!(data, &[0x01, 0x02]); // object_count byte excluded
        }
        _ => panic!("expected Explicit"),
    }
    assert_eq!(chnl.object_count, Some(3));
}

#[test]
fn test_speaker_positions_predefined() {
    let data = raw_data_explicit();
    let chnl = ChnlBoxView::decode(&data).unwrap();

    let layout = chnl.channel_layout.as_ref().unwrap();
    let positions: Vec<_> = layout
        .speaker_positions(1)
        .unwrap()
        .unwrap();

    assert_eq!(positions.len(), 1);
    assert_eq!(positions[0].position, 0x01);
    assert!(positions[0].azimuth.is_none());
    assert!(positions[0].elevation.is_none());
}

#[test]
fn test_speaker_positions_explicit_position() {
    let data: [u8; 10] = [
        0x00, // version = 0
        0x00, 0x00, 0x00, // flags = 0
        0x01, // stream_structure = CHANNEL_STRUCTURED
        0x00, // defined_layout = 0 (explicit)
        126,  // speaker_position = 126 (explicit)
        0x00, 0x5A, // azimuth = 90
        0x2D, // elevation = 45
    ];
    let chnl = ChnlBoxView::decode(&data).unwrap();

    let layout = chnl.channel_layout.as_ref().unwrap();
    let positions: Vec<_> = layout
        .speaker_positions(1)
        .unwrap()
        .unwrap();

    assert_eq!(positions.len(), 1);
    assert_eq!(positions[0].position, 126);
    assert_eq!(positions[0].azimuth, Some(90));
    assert_eq!(positions[0].elevation, Some(45));
}

#[test]
fn test_speaker_positions_returns_none_for_predefined_layout() {
    let data = raw_data_predefined();
    let chnl = ChnlBoxView::decode(&data).unwrap();

    let layout = chnl.channel_layout.as_ref().unwrap();
    assert!(layout.speaker_positions(2).is_none());
}

#[test]
fn test_chnl_box_round_trip_both_flags_explicit() {

    let original: [u8; 9] = [
        0x00, // version = 0
        0x00, 0x00, 0x00, // flags = 0
        0x03, // stream_structure = CHANNEL_STRUCTURED | OBJECT_STRUCTURED
        0x00, // defined_layout = 0 (explicit)
        0x01, 0x02, // speaker positions (2 channels)
        0x03, // object_count = 3
    ];
    let chnl = ChnlBox::decode(&original).unwrap();

    let mut encoded = vec![0u8; chnl.encoded_len()];
    chnl.encode_into(&mut encoded).unwrap();

    assert_eq!(&encoded[..], &original[..]);
}
