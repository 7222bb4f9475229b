#[allow(unused_imports)]
use mp4_bmff::boxes::sample_entry::audio::AudioSampleEntry;
#[allow(unused_imports)]
use mp4_bmff::boxes::sample_entry::audio::AudioSampleEntryView;
#[allow(unused_imports)]
use mp4_bmff::codec::BoxCodec;
#[allow(unused_imports)]
use mp4_bmff::codec::BoxDecode;
#[allow(unused_imports)]
use mp4_bmff::codec::BoxEncode;
#[allow(unused_imports)]
use mp4_bmff::cursor::ReadCursor;
#[allow(unused_imports)]
use mp4_bmff::error::ErrorKind;
#[allow(unused_imports)]
use mp4_bmff::types::BoxType;
#[allow(unused_imports)]
use mp4_bmff::types::U16F16;

/// Creates a raw AudioSampleEntry payload (28 bytes).
fn raw_data() -> [u8; 28] {
    [
        // SampleEntry base (8 bytes)
        0x00, 0x00, 0x00, 0x00, 0x00, 0x00, // reserved
        0x00, 0x01, // data_reference_index = 1
        // AudioSampleEntry specific (20 bytes)
        0x00, 0x00, 0x00, 0x00, 0x00, 0x00, 0x00, 0x00, // reserved
        0x00, 0x02, // channelcount = 2
        0x00, 0x10, // samplesize = 16
        0x00, 0x00, // pre_defined
        0x00, 0x00, // reserved
        0xAC, 0x44, 0x00, 0x00, // samplerate = 44100 << 16
    ]
}

/// Creates a chnl box payload with predefined layout.
fn chnl_box_bytes() -> Vec<u8> {
    let payload: [u8; 14] = [
        0x00, // version = 0
        0x00, 0x00, 0x00, // flags = 0
        0x01, // stream_structure = CHANNEL_STRUCTURED
        0x02, // defined_layout = 2 (predefined)
        0x00, 0x00, 0x00, 0x00, 0x00, 0x00, 0x00, 0x03, // omitted_channels_map = 3
    ];
    let size = (8 + payload.len()) as u32;
    let mut data = Vec::with_capacity(size as usize);
    data.extend_from_slice(&size.to_be_bytes());
    data.extend_from_slice(b"chnl");
    data.extend_from_slice(&payload);
    data
}

/// Creates a dmix box payload with in_stream coefficients.
fn dmix_box_bytes() -> Vec<u8> {
    let payload: [u8; 7] = [
        0x00, // version = 0
        0x00, 0x00, 0x00, // flags = 0
        0x01, // target_layout = 1
        0x02, // target_channel_count = 2
        0x85, // in_stream(1) + downmix_id = 5
    ];
    let size = (8 + payload.len()) as u32;
    let mut data = Vec::with_capacity(size as usize);
    data.extend_from_slice(&size.to_be_bytes());
    data.extend_from_slice(b"dmix");
    data.extend_from_slice(&payload);
    data
}

#[test]
fn test_audio_sample_entry_view_decode() {
    let data = raw_data();
    let mut cur = ReadCursor::new(&data);
    let view = AudioSampleEntryView::parse_in(&mut cur).unwrap();

    assert_eq!(view.sample_entry().data_reference_index, 1);
    assert_eq!(view.channelcount, 2);
    assert_eq!(view.samplesize, 16);
    assert_eq!(view.samplerate, U16F16::from_raw(0xAC440000));
}

#[test]
fn test_audio_sample_entry_view_truncated() {
    let data: [u8; 10] = [0x00; 10];
    let mut cur = ReadCursor::new(&data);
    assert!(AudioSampleEntryView::parse_in(&mut cur).is_err());
}

#[test]
fn test_audio_sample_entry_view_no_child_boxes() {
    let data = raw_data();
    let mut cur = ReadCursor::new(&data);
    let view = AudioSampleEntryView::parse_in(&mut cur).unwrap();

    assert!(view.chnl().unwrap().is_none());
    assert_eq!(view.dmixes().unwrap().len(), 0);
}

#[test]
fn test_audio_sample_entry_view_chnl() {
    let mut data = Vec::new();
    data.extend_from_slice(&raw_data());
    data.extend_from_slice(&chnl_box_bytes());

    let mut cur = ReadCursor::new(&data);
    let view = AudioSampleEntryView::parse_in(&mut cur).unwrap();
    let chnl = view.chnl().unwrap().unwrap();

    assert_eq!(chnl.version, 0);
    assert_eq!(chnl.stream_structure, 0x01);
}

#[test]
fn test_audio_sample_entry_view_dmix() {
    let mut data = Vec::new();
    data.extend_from_slice(&raw_data());
    data.extend_from_slice(&dmix_box_bytes());

    let mut cur = ReadCursor::new(&data);
    let view = AudioSampleEntryView::parse_in(&mut cur).unwrap();

    let dmix_boxes: Vec<_> = view.dmixes().unwrap();
    assert_eq!(dmix_boxes.len(), 1);
    let dmix = &dmix_boxes[0];
    assert_eq!(dmix.target_layout, 1);
    assert!(dmix.in_stream);
}

#[test]
fn test_audio_sample_entry_view_multiple_dmix() {
    let mut data = Vec::new();
    data.extend_from_slice(&raw_data());
    data.extend_from_slice(&dmix_box_bytes());
    data.extend_from_slice(&dmix_box_bytes());

    let mut cur = ReadCursor::new(&data);
    let view = AudioSampleEntryView::parse_in(&mut cur).unwrap();

    let dmix_boxes: Vec<_> = view.dmixes().unwrap();
    assert_eq!(dmix_boxes.len(), 2);
}

#[test]
fn test_audio_sample_entry_try_from() {
    let data = raw_data();
    let mut cur = ReadCursor::new(&data);
    let view = AudioSampleEntryView::parse_in(&mut cur).unwrap();
    let (owned, _) = AudioSampleEntry::try_parse_view(&view).unwrap();

    assert_eq!(owned.base.data_reference_index, 1);
    assert_eq!(owned.channelcount, 2);
    assert_eq!(owned.samplesize, 16);
    assert_eq!(owned.samplerate, U16F16::from_raw(0xAC440000));
}

#[test]
fn test_audio_sample_entry_try_from_with_chnl() {
    let mut data = Vec::new();
    data.extend_from_slice(&raw_data());
    data.extend_from_slice(&chnl_box_bytes());

    let mut cur = ReadCursor::new(&data);
    let view = AudioSampleEntryView::parse_in(&mut cur).unwrap();
    let (owned, _) = AudioSampleEntry::try_parse_view(&view).unwrap();

    assert!(owned.chnl.is_some());
}

#[test]
fn test_audio_sample_entry_round_trip() {
    let mut original = Vec::new();
    original.extend_from_slice(&raw_data());
    original.extend_from_slice(&chnl_box_bytes());

    let mut cur = ReadCursor::new(&original);
    let view = AudioSampleEntryView::parse_in(&mut cur).unwrap();
    let (owned, _) = AudioSampleEntry::try_parse_view(&view).unwrap();

    let mut encoded = vec![0u8; owned.encode_len()];
    owned.write_in(&mut encoded, 0).unwrap();

    assert_eq!(&encoded[..], &original[..]);
}

#[test]
fn test_audio_sample_entry_try_from_multiple_dmix() {
    let mut data = Vec::new();
    data.extend_from_slice(&raw_data());
    data.extend_from_slice(&dmix_box_bytes());
    data.extend_from_slice(&dmix_box_bytes());

    let mut cur = ReadCursor::new(&data);
    let view = AudioSampleEntryView::parse_in(&mut cur).unwrap();
    let (owned, _) = AudioSampleEntry::try_parse_view(&view).unwrap();

    assert_eq!(owned.dmix.len(), 2);
}

#[test]
fn test_audio_sample_entry_round_trip_with_dmix() {
    let mut original = Vec::new();
    original.extend_from_slice(&raw_data());
    original.extend_from_slice(&dmix_box_bytes());
    original.extend_from_slice(&dmix_box_bytes());

    let mut cur = ReadCursor::new(&original);
    let view = AudioSampleEntryView::parse_in(&mut cur).unwrap();
    let (owned, _) = AudioSampleEntry::try_parse_view(&view).unwrap();

    let mut encoded = vec![0u8; owned.encode_len()];
    owned.write_in(&mut encoded, 0).unwrap();

    assert_eq!(&encoded[..], &original[..]);
}

#[test]
fn test_audio_sample_entry_duplicate_chnl_error() {
    let mut data = Vec::new();
    data.extend_from_slice(&raw_data());
    data.extend_from_slice(&chnl_box_bytes());
    data.extend_from_slice(&chnl_box_bytes()); // duplicate

    let mut cur = ReadCursor::new(&data);
    let view = AudioSampleEntryView::parse_in(&mut cur).unwrap();
    let err = AudioSampleEntry::try_parse_view(&view).unwrap_err();

    match err.kind() {
        ErrorKind::BoxDuplicate { duplicate } => {
            assert_eq!(duplicate, BoxType::CHNL);
        }
        _ => panic!("Expected BoxDuplicate error"),
    }
}
