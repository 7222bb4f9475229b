#[allow(unused_imports)]
use mp4_bmff::codec::BoxCodec;
#[allow(unused_imports)]
use mp4_bmff::codec::BoxDecode;
#[allow(unused_imports)]
use mp4_bmff::codec::BoxEncode;
#[allow(unused_imports)]
use mp4_bmff::formats::mpeg4::systems::descriptor::Tag;
#[allow(unused_imports)]
use mp4_bmff::formats::mpeg4::systems::descriptor::dec::ObjectTypeIndication;
#[allow(unused_imports)]
use mp4_bmff::formats::mpeg4::systems::descriptor::es::EsDescriptor;
#[allow(unused_imports)]
use mp4_bmff::formats::mpeg4::systems::descriptor::es::EsDescriptorView;

// Helper function to create a minimal DecoderConfigDescriptor bytes
fn minimal_dec_config_descr() -> Vec<u8> {
    vec![
        0x40, // object_type_indication = MPEG4_AUDIO
        0x15, // stream_type = AUDIO_STREAM
        0x00, 0x00, 0x10, // buffer_size_db
        0x00, 0x01, 0x00, 0x00, // max_bitrate
        0x00, 0x00, 0x80, 0x00, // avg_bitrate
    ]
}

// Helper function to create a minimal SL Config Descriptor bytes
fn minimal_sl_config_descr() -> Vec<u8> {
    vec![0x06, 0x01, 0x02] // tag + size + predefined
}

// Helper to wrap bytes as a descriptor
fn wrap_as_descriptor(tag: u8, data: &[u8]) -> Vec<u8> {
    let mut result = vec![tag, data.len() as u8];
    result.extend_from_slice(data);
    result
}

#[test]
fn test_es_descriptor_view_parse_minimal() {
    // ES_ID(2) + flags(1) + DecoderConfigDescr + SLConfigDescr
    let dec_config = minimal_dec_config_descr();
    let dec_config_wrapped = wrap_as_descriptor(0x04, &dec_config);
    let sl_config = minimal_sl_config_descr();

    let mut data = vec![
        0x00, 0x01, // es_id = 1
        0x00, // flags: no dependencies, no url, no ocr
    ];
    data.extend_from_slice(&dec_config_wrapped);
    data.extend_from_slice(&sl_config);

    let view = EsDescriptorView::parse(&data).unwrap();

    assert_eq!(view.es_id, 1);
    assert!(!view.stream_dependence_flag);
    assert!(!view.url_flag);
    assert!(!view.ocr_stream_flag);
    assert_eq!(view.stream_priority, 0);
    assert!(view.depends_on_es_id.is_none());
    assert!(view.url_string.is_none());
    assert!(view.ocr_es_id.is_none());
}

#[test]
fn test_es_descriptor_view_parse_with_stream_priority() {
    let dec_config = minimal_dec_config_descr();
    let dec_config_wrapped = wrap_as_descriptor(0x04, &dec_config);
    let sl_config = minimal_sl_config_descr();

    let mut data = vec![
        0x00, 0x01, // es_id = 1
        0x0F, // flags: stream_priority = 15
    ];
    data.extend_from_slice(&dec_config_wrapped);
    data.extend_from_slice(&sl_config);

    let view = EsDescriptorView::parse(&data).unwrap();

    assert_eq!(view.stream_priority, 15);
}

#[test]
fn test_es_descriptor_view_parse_with_depends_on() {
    let dec_config = minimal_dec_config_descr();
    let dec_config_wrapped = wrap_as_descriptor(0x04, &dec_config);
    let sl_config = minimal_sl_config_descr();

    let mut data = vec![
        0x00, 0x01, // es_id = 1
        0x80, // flags: stream_dependence_flag = 1
        0x00, 0x02, // depends_on_es_id = 2
    ];
    data.extend_from_slice(&dec_config_wrapped);
    data.extend_from_slice(&sl_config);

    let view = EsDescriptorView::parse(&data).unwrap();

    assert!(view.stream_dependence_flag);
    assert_eq!(view.depends_on_es_id, Some(2));
}

#[test]
fn test_es_descriptor_view_parse_with_url() {
    let dec_config = minimal_dec_config_descr();
    let dec_config_wrapped = wrap_as_descriptor(0x04, &dec_config);
    let sl_config = minimal_sl_config_descr();

    let url = "http://example.com";
    let mut data = vec![
        0x00,
        0x01,            // es_id = 1
        0x40,            // flags: url_flag = 1
        url.len() as u8, // url length
    ];
    data.extend_from_slice(url.as_bytes());
    data.extend_from_slice(&dec_config_wrapped);
    data.extend_from_slice(&sl_config);

    let view = EsDescriptorView::parse(&data).unwrap();

    assert!(view.url_flag);
    assert_eq!(view.url_string, Some("http://example.com"));
}

#[test]
fn test_es_descriptor_view_parse_with_ocr() {
    let dec_config = minimal_dec_config_descr();
    let dec_config_wrapped = wrap_as_descriptor(0x04, &dec_config);
    let sl_config = minimal_sl_config_descr();

    let mut data = vec![
        0x00, 0x01, // es_id = 1
        0x20, // flags: ocr_stream_flag = 1
        0x00, 0x03, // ocr_es_id = 3
    ];
    data.extend_from_slice(&dec_config_wrapped);
    data.extend_from_slice(&sl_config);

    let view = EsDescriptorView::parse(&data).unwrap();

    assert!(view.ocr_stream_flag);
    assert_eq!(view.ocr_es_id, Some(3));
}

#[test]
fn test_es_descriptor_view_dec_config_descr() {
    let dec_config = minimal_dec_config_descr();
    let dec_config_wrapped = wrap_as_descriptor(0x04, &dec_config);
    let sl_config = minimal_sl_config_descr();

    let mut data = vec![0x00, 0x01, 0x00];
    data.extend_from_slice(&dec_config_wrapped);
    data.extend_from_slice(&sl_config);

    let view = EsDescriptorView::parse(&data).unwrap();
    let dec_config_view = view.dec_config_descr().unwrap();

    assert_eq!(
        dec_config_view.object_type_indication,
        ObjectTypeIndication::mpeg4_audio()
    );
}

#[test]
fn test_es_descriptor_view_sl_config_descr() {
    let dec_config = minimal_dec_config_descr();
    let dec_config_wrapped = wrap_as_descriptor(0x04, &dec_config);
    let sl_config = minimal_sl_config_descr();

    let mut data = vec![0x00, 0x01, 0x00];
    data.extend_from_slice(&dec_config_wrapped);
    data.extend_from_slice(&sl_config);

    let view = EsDescriptorView::parse(&data).unwrap();
    let sl_descr = view.sl_config_descr().unwrap();

    assert_eq!(sl_descr.tag(), Tag::sl_config_descr());
    assert_eq!(sl_descr.instance(), &[0x02]);
}

#[test]
fn test_es_descriptor_view_missing_dec_config() {
    let sl_config = minimal_sl_config_descr();

    let mut data = vec![0x00, 0x01, 0x00];
    data.extend_from_slice(&sl_config);

    let view = EsDescriptorView::parse(&data).unwrap();
    let result = view.dec_config_descr();

    assert!(result.is_err());
}

#[test]
fn test_es_descriptor_view_missing_sl_config() {
    let dec_config = minimal_dec_config_descr();
    let dec_config_wrapped = wrap_as_descriptor(0x04, &dec_config);

    let mut data = vec![0x00, 0x01, 0x00];
    data.extend_from_slice(&dec_config_wrapped);

    let view = EsDescriptorView::parse(&data).unwrap();
    let result = view.sl_config_descr();

    assert!(result.is_err());
}

#[test]
fn test_es_descriptor_view_parse_too_short() {
    let data = [0x00, 0x01]; // Only es_id, missing flags

    let result = EsDescriptorView::parse(&data);
    assert!(result.is_err());
}

#[test]
fn test_es_descriptor_parse() {
    let dec_config = minimal_dec_config_descr();
    let dec_config_wrapped = wrap_as_descriptor(0x04, &dec_config);
    let sl_config = minimal_sl_config_descr();

    let mut data = vec![0x00, 0x01, 0x00];
    data.extend_from_slice(&dec_config_wrapped);
    data.extend_from_slice(&sl_config);

    let desc = EsDescriptor::parse(&data).unwrap();

    assert_eq!(desc.es_id, 1);
    assert!(!desc.stream_dependence_flag);
    assert!(!desc.url_flag);
    assert!(!desc.ocr_stream_flag);
}

#[test]
fn test_es_descriptor_write() {
    let dec_config = minimal_dec_config_descr();
    let dec_config_wrapped = wrap_as_descriptor(0x04, &dec_config);
    let sl_config = minimal_sl_config_descr();

    let mut original_data = vec![0x00, 0x01, 0x00];
    original_data.extend_from_slice(&dec_config_wrapped);
    original_data.extend_from_slice(&sl_config);

    let desc = EsDescriptor::parse(&original_data).unwrap();

    // Calculate expected size and create buffer
    let expected_size = 3 + desc.dec_config_descr.encoded_len() + desc.sl_config_descr.len();
    let mut buffer = vec![0u8; expected_size + 10];

    let written = desc.write(&mut buffer).unwrap();

    // Verify basic structure
    assert_eq!(buffer[0], 0x00); // es_id high byte
    assert_eq!(buffer[1], 0x01); // es_id low byte
    assert_eq!(buffer[2], 0x00); // flags
    assert!(written > 0);
}

#[test]
fn test_es_descriptor_with_all_optional_fields() {
    let dec_config = minimal_dec_config_descr();
    let dec_config_wrapped = wrap_as_descriptor(0x04, &dec_config);
    let sl_config = minimal_sl_config_descr();

    let url = "test";
    let mut data = vec![
        0x00,
        0x05, // es_id = 5
        0xE5, // flags: all flags set + priority = 5
        0x00,
        0x02, // depends_on_es_id = 2
        url.len() as u8,
    ];
    data.extend_from_slice(url.as_bytes());
    data.extend_from_slice(&[0x00, 0x03]); // ocr_es_id = 3
    data.extend_from_slice(&dec_config_wrapped);
    data.extend_from_slice(&sl_config);

    let desc = EsDescriptor::parse(&data).unwrap();

    assert_eq!(desc.es_id, 5);
    assert!(desc.stream_dependence_flag);
    assert!(desc.url_flag);
    assert!(desc.ocr_stream_flag);
    assert_eq!(desc.stream_priority, 5);
    assert_eq!(desc.depends_on_es_id, Some(2));
    assert_eq!(desc.url_string.as_deref(), Some("test"));
    assert_eq!(desc.ocr_es_id, Some(3));
}
