#[allow(unused_imports)]
use mp4_bmff::boxes::sample_entry::visual::CompressorName;
#[allow(unused_imports)]
use mp4_bmff::boxes::sample_entry::visual::VisualSampleEntry;
#[allow(unused_imports)]
use mp4_bmff::boxes::sample_entry::visual::VisualSampleEntryView;
#[allow(unused_imports)]
use mp4_bmff::codec::BoxCodec;
#[allow(unused_imports)]
use mp4_bmff::codec::BoxDecode;
#[allow(unused_imports)]
use mp4_bmff::codec::BoxEncode;
#[allow(unused_imports)]
use mp4_bmff::cursor::ReadCursor;
#[allow(unused_imports)]
use mp4_bmff::types::U16F16;

fn raw_data() -> [u8; 78] {
    let mut data = [0u8; 78];
    // reserved (6 bytes)
    // data_reference_index (2 bytes)
    data[6] = 0x00;
    data[7] = 0x01; // data_reference_index = 1
    // pre_defined (2 bytes)
    // reserved (2 bytes)
    // pre_defined (12 bytes)
    // width (2 bytes) at offset 24
    data[24] = 0x05;
    data[25] = 0x00; // width = 1280
    // height (2 bytes) at offset 26
    data[26] = 0x02;
    data[27] = 0xD0; // height = 720
    // horizresolution (4 bytes) at offset 28
    data[28] = 0x00;
    data[29] = 0x48;
    data[30] = 0x00;
    data[31] = 0x00; // 72.0 dpi
    // vertresolution (4 bytes) at offset 32
    data[32] = 0x00;
    data[33] = 0x48;
    data[34] = 0x00;
    data[35] = 0x00; // 72.0 dpi
    // reserved (4 bytes)
    // frame_count (2 bytes) at offset 40
    data[40] = 0x00;
    data[41] = 0x01; // frame_count = 1
    // compressorname (32 bytes) at offset 42
    // depth (2 bytes) at offset 74
    data[74] = 0x00;
    data[75] = 0x18; // depth = 24
    // pre_defined (2 bytes) at offset 76
    data[76] = 0xFF;
    data[77] = 0xFF; // pre_defined = -1
    data
}

#[test]
fn test_visual_sample_entry_view_decode() {
    let data = raw_data();
    let mut cur = ReadCursor::new(&data);
    let view = VisualSampleEntryView::parse_in(&mut cur).unwrap();

    assert_eq!(view.sample_entry().data_reference_index, 1);
    assert_eq!(view.width, 1280);
    assert_eq!(view.height, 720);
    assert_eq!(view.horizresolution, U16F16::from_raw(0x00480000));
    assert_eq!(view.vertresolution, U16F16::from_raw(0x00480000));
    assert_eq!(view.frame_count, 1);
    assert_eq!(view.depth, 0x0018);
}

#[test]
fn test_visual_sample_entry_view_truncated() {
    let data: [u8; 30] = [0x00; 30];
    let mut cur = ReadCursor::new(&data);
    let result = VisualSampleEntryView::parse_in(&mut cur);
    assert!(result.is_err());
}

#[test]
fn test_visual_sample_entry_view_pasp() {
    let mut data = Vec::new();
    data.extend_from_slice(&raw_data());
    // pasp box: size(4) + type(4) + h_spacing(4) + v_spacing(4) = 16 bytes
    data.extend_from_slice(&[
        0x00, 0x00, 0x00, 0x10, // size = 16
        b'p', b'a', b's', b'p', // type = "pasp"
        0x00, 0x00, 0x00, 0x0A, // h_spacing = 10
        0x00, 0x00, 0x00, 0x0B, // v_spacing = 11
    ]);

    let mut cur = ReadCursor::new(&data);
    let view = VisualSampleEntryView::parse_in(&mut cur).unwrap();
    let pasp = view.pasp().unwrap().unwrap();

    assert_eq!(pasp.h_spacing, 10);
    assert_eq!(pasp.v_spacing, 11);
}

#[test]
fn test_visual_sample_entry_view_no_child_boxes() {
    let data = raw_data();
    let mut cur = ReadCursor::new(&data);
    let view = VisualSampleEntryView::parse_in(&mut cur).unwrap();

    assert!(view.pasp().unwrap().is_none());
    assert!(view.clap().unwrap().is_none());
    assert!(view.colr().unwrap().is_none());
}

#[test]
fn test_compressor_name_new() {
    let name = CompressorName::new("VideoHandler");
    assert_eq!(name.as_str(), Some("VideoHandler"));
}

#[test]
fn test_compressor_name_truncate() {
    let long = "a]234567890123456789012345678901234567890";
    let name = CompressorName::new(long);
    // Truncated to 31 bytes
    assert_eq!(name.as_str().unwrap().len(), 31);
}

#[test]
fn test_compressor_name_empty() {
    let name = CompressorName::new("");
    assert_eq!(name.as_str(), Some(""));
}

#[test]
fn test_visual_sample_entry_try_from() {
    let data = raw_data();
    let mut cur = ReadCursor::new(&data);
    let view = VisualSampleEntryView::parse_in(&mut cur).unwrap();
    let (owned, _) = VisualSampleEntry::try_parse_view(&view).unwrap();

    assert_eq!(owned.base.data_reference_index, 1);
    assert_eq!(owned.width, 1280);
    assert_eq!(owned.height, 720);
    assert_eq!(owned.frame_count, 1);
    assert_eq!(owned.depth, 0x0018);
}

#[test]
fn test_visual_sample_entry_round_trip() {
    let mut original = Vec::new();
    original.extend_from_slice(&raw_data());
    // Add pasp child box
    original.extend_from_slice(&[
        0x00, 0x00, 0x00, 0x10, // size = 16
        b'p', b'a', b's', b'p', // type = "pasp"
        0x00, 0x00, 0x00, 0x01, // h_spacing = 1
        0x00, 0x00, 0x00, 0x01, // v_spacing = 1
    ]);

    let mut cur = ReadCursor::new(&original);
    let view = VisualSampleEntryView::parse_in(&mut cur).unwrap();
    let (owned, _) = VisualSampleEntry::try_parse_view(&view).unwrap();

    let mut encoded = vec![0u8; owned.encode_len()];
    owned.write_in(&mut encoded, 0).unwrap();

    assert_eq!(&encoded[..], &original[..]);
}
