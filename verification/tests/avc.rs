#[allow(unused_imports)]
use mp4_bmff::formats::mpeg4::systems::descriptor::{DescriptorIter, RawDescriptorRef};
#[allow(unused_imports)]
use mp4_bmff::boxes::nal::avc::Avc1SampleEntry;
#[allow(unused_imports)]
use mp4_bmff::boxes::nal::avc::Avc1SampleEntryView;
#[allow(unused_imports)]
use mp4_bmff::boxes::nal::avc::Avc2SampleEntry;
#[allow(unused_imports)]
use mp4_bmff::boxes::nal::avc::Avc2SampleEntryView;
#[allow(unused_imports)]
use mp4_bmff::boxes::nal::avc::Avc3SampleEntry;
#[allow(unused_imports)]
use mp4_bmff::boxes::nal::avc::Avc3SampleEntryView;
#[allow(unused_imports)]
use mp4_bmff::boxes::nal::avc::Avc4SampleEntry;
#[allow(unused_imports)]
use mp4_bmff::boxes::nal::avc::Avc4SampleEntryView;
#[allow(unused_imports)]
use mp4_bmff::boxes::nal::avc::AvcCBox;
#[allow(unused_imports)]
use mp4_bmff::boxes::nal::avc::AvcCBoxView;
#[allow(unused_imports)]
use mp4_bmff::boxes::nal::avc::M4dsBox;
#[allow(unused_imports)]
use mp4_bmff::boxes::nal::avc::M4dsBoxView;
#[allow(unused_imports)]
use mp4_bmff::boxes::sample_entry::visual::VisualSampleEntry;
#[allow(unused_imports)]
use mp4_bmff::codec::BoxCodec;
#[allow(unused_imports)]
use mp4_bmff::codec::BoxDecode;
#[allow(unused_imports)]
use mp4_bmff::codec::BoxEncode;
#[allow(unused_imports)]
use mp4_bmff::types::BoxType;

// Sample AVC Configuration Record (Baseline profile)
fn sample_avcc_payload() -> [u8; 23] {
    [
        0x01, // configuration_version
        0x42, // avc_profile_indication (Baseline)
        0xC0, // profile_compatibility
        0x1E, // avc_level_indication (Level 3.0)
        0xFF, // reserved (6 bits) + length_size_minus_one (2 bits) = 3
        0xE1, // reserved (3 bits) + num_of_sps (5 bits) = 1
        // SPS: length=8
        0x00, 0x08, 0x67, 0x42, 0xC0, 0x1E, 0xD9, 0x00, 0x68, 0x24, 0x01, // num_of_pps = 1
        // PPS: length=4
        0x00, 0x04, 0x68, 0xCE, 0x3C, 0x80,
    ]
}

// Sample Visual Sample Entry base (78 bytes)
fn sample_visual_sample_entry_base() -> [u8; 78] {
    let mut data = [0u8; 78];
    // reserved (6 bytes)
    // data_reference_index (2 bytes)
    data[6] = 0x00;
    data[7] = 0x01; // data_reference_index = 1
    // pre_defined (2 bytes)
    // reserved (2 bytes)
    // pre_defined (12 bytes)
    // width (2 bytes) at offset 24
    data[24] = 0x05;
    data[25] = 0x00; // width = 1280
    // height (2 bytes) at offset 26
    data[26] = 0x02;
    data[27] = 0xD0; // height = 720
    // horizresolution (4 bytes) at offset 28
    data[28] = 0x00;
    data[29] = 0x48;
    data[30] = 0x00;
    data[31] = 0x00; // 72.0 dpi
    // vertresolution (4 bytes) at offset 32
    data[32] = 0x00;
    data[33] = 0x48;
    data[34] = 0x00;
    data[35] = 0x00; // 72.0 dpi
    // reserved (4 bytes)
    // frame_count (2 bytes) at offset 40
    data[40] = 0x00;
    data[41] = 0x01; // frame_count = 1
    // compressorname (32 bytes) at offset 42
    // depth (2 bytes) at offset 74
    data[74] = 0x00;
    data[75] = 0x18; // depth = 24
    // pre_defined (2 bytes) at offset 76
    data[76] = 0xFF;
    data[77] = 0xFF; // pre_defined = -1
    data
}

// Build avcC box with header
fn build_avcc_box() -> Vec<u8> {
    let payload = sample_avcc_payload();
    let size = 8 + payload.len() as u32;
    let mut data = Vec::with_capacity(size as usize);
    data.extend_from_slice(&size.to_be_bytes());
    data.extend_from_slice(b"avcC");
    data.extend_from_slice(&payload);
    data
}

#[test]
fn test_avcc_box_view_decode() {
    let payload = sample_avcc_payload();
    let view = AvcCBoxView::decode(&payload).unwrap();

    assert_eq!(view.avc_config.configuration_version, 1);
    assert_eq!(view.avc_config.avc_profile_indication, 0x42);
    assert_eq!(view.avc_config.profile_compatibility, 0xC0);
    assert_eq!(view.avc_config.avc_level_indication, 0x1E);
    assert_eq!(view.avc_config.length_size_minus_one, 3);
    assert_eq!(view.avc_config.num_of_sps, 1);
    assert_eq!(view.avc_config.num_of_pps, 1);
}

#[test]
fn test_avcc_box_view_boxtype() {
    let payload = sample_avcc_payload();
    let view = AvcCBoxView::decode(&payload).unwrap();

    assert_eq!(view.boxtype(), BoxType::AVCC);
}

#[test]
fn test_avcc_box_view_sps_pps() {
    let payload = sample_avcc_payload();
    let view = AvcCBoxView::decode(&payload).unwrap();

    let sps_list: Vec<&[u8]> = view.avc_config.sps();
    assert_eq!(sps_list.len(), 1);
    assert_eq!(
        sps_list[0],
        &[0x67, 0x42, 0xC0, 0x1E, 0xD9, 0x00, 0x68, 0x24]
    );

    let pps_list: Vec<&[u8]> = view.avc_config.pps();
    assert_eq!(pps_list.len(), 1);
    assert_eq!(pps_list[0], &[0x68, 0xCE, 0x3C, 0x80]);
}

#[test]
fn test_m4ds_box_view_decode() {
    // Empty M4DS box
    let payload: [u8; 0] = [];
    let view = M4dsBoxView::decode(&payload).unwrap();

    assert_eq!(view.boxtype(), BoxType::M4DS);
    assert_eq!(collect_descrs(view.descriptors()).len(), 0);
}

#[test]
fn test_m4ds_box_view_with_descriptors() {
    // M4DS with one descriptor: tag(0x05) + size(0x02) + data
    let payload = [0x05, 0x02, 0xAA, 0xBB];
    let view = M4dsBoxView::decode(&payload).unwrap();

    let descriptors: Vec<_> = collect_descrs(view.descriptors());
    assert_eq!(descriptors.len(), 1);
    let descr = descriptors[0].as_ref().unwrap();
    assert_eq!(descr.instance(), &[0xAA, 0xBB]);
}

#[test]
fn test_avc_sample_entry_view_decode() {
    let mut data = Vec::new();
    data.extend_from_slice(&sample_visual_sample_entry_base());
    data.extend_from_slice(&build_avcc_box());

    let view = Avc1SampleEntryView::decode(&data).unwrap();

    assert_eq!(view.boxtype(), BoxType::AVC1);
    assert_eq!(view.base().width, 1280);
    assert_eq!(view.base().height, 720);
}

#[test]
fn test_avc_sample_entry_view_avcc() {
    let mut data = Vec::new();
    data.extend_from_slice(&sample_visual_sample_entry_base());
    data.extend_from_slice(&build_avcc_box());

    let view = Avc1SampleEntryView::decode(&data).unwrap();
    let avcc = view.avcc().unwrap();

    assert_eq!(avcc.avc_config.avc_profile_indication, 0x42);
}

#[test]
fn test_avc_sample_entry_view_missing_avcc() {
    // Only visual sample entry base, no avcC box
    let data = sample_visual_sample_entry_base();

    let view = Avc1SampleEntryView::decode(&data).unwrap();
    let result = view.avcc();

    assert!(result.is_err());
}

#[test]
fn test_avc3_sample_entry_view_boxtype() {
    let mut data = Vec::new();
    data.extend_from_slice(&sample_visual_sample_entry_base());
    data.extend_from_slice(&build_avcc_box());

    let view = Avc3SampleEntryView::decode(&data).unwrap();

    assert_eq!(view.boxtype(), BoxType::AVC3);
}

#[test]
fn test_avc2_sample_entry_view_decode() {
    let mut data = Vec::new();
    data.extend_from_slice(&sample_visual_sample_entry_base());
    data.extend_from_slice(&build_avcc_box());

    let view = Avc2SampleEntryView::decode(&data).unwrap();

    assert_eq!(view.boxtype(), BoxType::AVC2);
    assert_eq!(view.base().width, 1280);
}

#[test]
fn test_avc4_sample_entry_view_boxtype() {
    let mut data = Vec::new();
    data.extend_from_slice(&sample_visual_sample_entry_base());
    data.extend_from_slice(&build_avcc_box());

    let view = Avc4SampleEntryView::decode(&data).unwrap();

    assert_eq!(view.boxtype(), BoxType::AVC4);
}

#[test]
fn test_avcc_box_to_owned() {
    let payload = sample_avcc_payload();
    let view = AvcCBoxView::decode(&payload).unwrap();
    let owned = view.to_owned();

    assert_eq!(
        owned.avc_config.avc_profile_indication,
        view.avc_config.avc_profile_indication
    );
    assert_eq!(
        owned.avc_config.sps.len(),
        view.avc_config.num_of_sps as usize
    );
    assert_eq!(
        owned.avc_config.pps.len(),
        view.avc_config.num_of_pps as usize
    );
}

#[test]
fn test_avcc_box_roundtrip() {

    let original = sample_avcc_payload();
    let owned = AvcCBox::decode(&original).unwrap();

    let mut buffer = vec![0u8; owned.encoded_len()];
    let written = owned.encode_into(&mut buffer).unwrap();

    assert_eq!(written, original.len());
    assert_eq!(&buffer[..], &original[..]);
}

#[test]
fn test_m4ds_box_roundtrip() {

    let payload = [0x05, 0x02, 0xAA, 0xBB, 0x06, 0x01, 0xCC];
    let owned = M4dsBox::decode(&payload).unwrap();

    assert_eq!(owned.descriptors.len(), 2);

    let mut buffer = vec![0u8; owned.encoded_len()];
    let written = owned.encode_into(&mut buffer).unwrap();

    assert_eq!(written, payload.len());
    assert_eq!(&buffer[..], &payload[..]);
}

#[test]
fn test_avc1_sample_entry_codec_string() {
    let mut data = Vec::new();
    data.extend_from_slice(&sample_visual_sample_entry_base());
    data.extend_from_slice(&build_avcc_box());

    let entry = Avc1SampleEntry::decode(&data).unwrap();
    let codec_string = entry.codec_string();

    // Profile 0x42, Compatibility 0xC0, Level 0x1E
    assert_eq!(codec_string, "avc1.42C01E");
}

#[test]
fn test_avc3_sample_entry_codec_string() {
    let mut data = Vec::new();
    data.extend_from_slice(&sample_visual_sample_entry_base());
    data.extend_from_slice(&build_avcc_box());

    let entry = Avc3SampleEntry::decode(&data).unwrap();
    let codec_string = entry.codec_string();

    assert_eq!(codec_string, "avc3.42C01E");
}

#[test]
fn test_avc2_sample_entry_codec_string() {
    let mut data = Vec::new();
    data.extend_from_slice(&sample_visual_sample_entry_base());
    data.extend_from_slice(&build_avcc_box());

    let entry = Avc2SampleEntry::decode(&data).unwrap();
    let codec_string = entry.codec_string();

    assert_eq!(codec_string, "avc2.42C01E");
}

#[test]
fn test_avc4_sample_entry_codec_string() {
    let mut data = Vec::new();
    data.extend_from_slice(&sample_visual_sample_entry_base());
    data.extend_from_slice(&build_avcc_box());

    let entry = Avc4SampleEntry::decode(&data).unwrap();
    let codec_string = entry.codec_string();

    assert_eq!(codec_string, "avc4.42C01E");
}

#[test]
fn test_avc1_sample_entry_roundtrip() {

    let mut original = Vec::new();
    original.extend_from_slice(&sample_visual_sample_entry_base());
    original.extend_from_slice(&build_avcc_box());

    let entry = Avc1SampleEntry::decode(&original).unwrap();

    let mut buffer = vec![0u8; entry.encoded_len()];
    let written = entry.encode_into(&mut buffer).unwrap();

    assert_eq!(written, original.len());

    // Verify reparsing
    let reparsed = Avc1SampleEntry::decode(&buffer).unwrap();
    assert_eq!(reparsed.base.width, entry.base.width);
    assert_eq!(reparsed.base.height, entry.base.height);
    assert_eq!(
        reparsed.avcc.avc_config.avc_profile_indication,
        entry.avcc.avc_config.avc_profile_indication
    );
}

#[test]
fn test_avc_sample_entry_with_m4ds() {

    let mut data = Vec::new();
    data.extend_from_slice(&sample_visual_sample_entry_base());
    data.extend_from_slice(&build_avcc_box());

    // Add m4ds box
    let m4ds_payload = [0x05, 0x02, 0xAA, 0xBB];
    let m4ds_size = 8 + m4ds_payload.len() as u32;
    data.extend_from_slice(&m4ds_size.to_be_bytes());
    data.extend_from_slice(b"m4ds");
    data.extend_from_slice(&m4ds_payload);

    let entry = Avc1SampleEntry::decode(&data).unwrap();

    assert!(entry.m4ds.is_some());
    let m4ds = entry.m4ds.as_ref().unwrap();
    assert_eq!(m4ds.descriptors.len(), 1);

    // Roundtrip
    let mut buffer = vec![0u8; entry.encoded_len()];
    entry.encode_into(&mut buffer).unwrap();

    let reparsed = Avc1SampleEntry::decode(&buffer).unwrap();
    assert!(reparsed.m4ds.is_some());
}

#[test]
fn test_avc_sample_entry_new() {
    let mut base = VisualSampleEntry::default();
    base.width = 1920;
    base.height = 1080;

    let avcc_payload = sample_avcc_payload();
    let avcc = AvcCBox::decode(&avcc_payload).unwrap();

    let entry = Avc1SampleEntry::new(base, avcc, None);

    assert_eq!(entry.base.width, 1920);
    assert_eq!(entry.base.height, 1080);
    assert!(entry.m4ds.is_none());
}

fn collect_descrs(mut it: DescriptorIter<'_>) -> Vec<Result<RawDescriptorRef<'_>, mp4_bmff::error::Error>> {
    let mut v = Vec::new();
    while let Some(x) = it.next() {
        let stop = x.is_err();
        v.push(x);
        if stop {
            break;
        }
    }
    v
}

#[test]
fn own_avc1_two_m4ds_is_an_error() {
    let mut data = sample_visual_sample_entry_base().to_vec();
    for _ in 0..2 {
        data.extend_from_slice(&[0, 0, 0, 8, b'm', b'4', b'd', b's']);
    }
    let view = Avc1SampleEntryView::decode(&data).unwrap();
    let e = view.m4ds().unwrap_err();
    assert_eq!(e.kind, mp4_bmff::error::ErrorKind::BoxDuplicate { duplicate: BoxType::M4DS });
}

#[test]
fn own_avc2_two_m4ds_is_an_error() {
    let mut data = sample_visual_sample_entry_base().to_vec();
    for _ in 0..2 {
        data.extend_from_slice(&[0, 0, 0, 8, b'm', b'4', b'd', b's']);
    }
    let view = Avc2SampleEntryView::decode(&data).unwrap();
    assert!(view.m4ds().is_err());
}
