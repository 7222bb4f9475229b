#[allow(unused_imports)]
use mp4_bmff::formats::mpeg4::systems::descriptor::DescriptorIter;
#[allow(unused_imports)]
use mp4_bmff::codec::BoxCodec;
#[allow(unused_imports)]
use mp4_bmff::codec::BoxDecode;
#[allow(unused_imports)]
use mp4_bmff::codec::BoxEncode;
#[allow(unused_imports)]
use mp4_bmff::formats::mpeg4::systems::descriptor::Tag;
#[allow(unused_imports)]
use mp4_bmff::formats::mpeg4::systems::descriptor::dec::DecoderConfigDescriptor;
#[allow(unused_imports)]
use mp4_bmff::formats::mpeg4::systems::descriptor::dec::DecoderConfigDescriptorView;
#[allow(unused_imports)]
use mp4_bmff::formats::mpeg4::systems::descriptor::dec::ObjectTypeIndication;
#[allow(unused_imports)]
use mp4_bmff::formats::mpeg4::systems::descriptor::dec::StreamType;

#[test]
fn test_object_type_indication_constants() {
    assert_eq!(ObjectTypeIndication::mpeg4_audio().0, 0x40);
    assert_eq!(ObjectTypeIndication::mpeg4_visual().0, 0x20);
    assert_eq!(ObjectTypeIndication::avc_video().0, 0x21);
}

#[test]
fn test_stream_type_constants() {
    assert_eq!(StreamType::audio_stream().0, 0x05);
    assert_eq!(StreamType::visual_stream().0, 0x04);
    assert_eq!(StreamType::text_stream().0, 0x06);
}

#[test]
fn test_decoder_config_descriptor_view_parse_minimal() {
    // Minimal DecoderConfigDescriptor without any sub-descriptors
    // object_type_indication(1) + stream_type_byte(1) + buffer_size_db(3) + max_bitrate(4) + avg_bitrate(4) = 13 bytes
    let data = [
        0x40, // object_type_indication = MPEG4_AUDIO
        0x15, // stream_type = 0x05 (AUDIO_STREAM) << 2 | up_stream = 0 | reserved = 1
        0x00, 0x00, 0x10, // buffer_size_db = 16
        0x00, 0x01, 0x00, 0x00, // max_bitrate = 65536
        0x00, 0x00, 0x80, 0x00, // avg_bitrate = 32768
    ];

    let view = DecoderConfigDescriptorView::parse(&data).unwrap();

    assert_eq!(
        view.object_type_indication,
        ObjectTypeIndication::mpeg4_audio()
    );
    assert_eq!(view.stream_type, StreamType::audio_stream());
    assert!(!view.up_stream);
    assert_eq!(view.buffer_size_db, [0x00, 0x00, 0x10]);
    assert_eq!(view.max_bitrate, 65536);
    assert_eq!(view.avg_bitrate, 32768);
    assert_eq!(count_descrs(view.descriptors()), 0);
}

#[test]
fn test_decoder_config_descriptor_view_parse_with_upstream() {
    let data = [
        0x40, // object_type_indication
        0x16, // stream_type = 0x05 << 2 | up_stream = 1 | reserved = 0
        0x00, 0x00, 0x10, // buffer_size_db
        0x00, 0x01, 0x00, 0x00, // max_bitrate
        0x00, 0x00, 0x80, 0x00, // avg_bitrate
    ];

    let view = DecoderConfigDescriptorView::parse(&data).unwrap();

    assert!(view.up_stream);
}

#[test]
fn test_decoder_config_descriptor_view_with_dec_specific_info() {
    // DecoderConfigDescriptor with DecoderSpecificInfo sub-descriptor
    let data = [
        0x40, // object_type_indication
        0x15, // stream_type byte
        0x00, 0x00, 0x10, // buffer_size_db
        0x00, 0x01, 0x00, 0x00, // max_bitrate
        0x00, 0x00, 0x80, 0x00, // avg_bitrate
        // DecoderSpecificInfo descriptor: tag(0x05) + size(0x02) + data
        0x05, 0x02, 0x11, 0x90,
    ];

    let view = DecoderConfigDescriptorView::parse(&data).unwrap();

    let dec_specific = view.dec_specific_info().unwrap();
    assert!(dec_specific.is_some());
    let dec_specific = dec_specific.unwrap();
    assert_eq!(
        dec_specific.tag(),
        Tag::decoder_specific_info()
    );
    assert_eq!(dec_specific.instance(), &[0x11, 0x90]);
}

#[test]
fn test_decoder_config_descriptor_view_no_dec_specific_info() {
    let data = [
        0x40, // object_type_indication
        0x15, // stream_type byte
        0x00, 0x00, 0x10, // buffer_size_db
        0x00, 0x01, 0x00, 0x00, // max_bitrate
        0x00, 0x00, 0x80, 0x00, // avg_bitrate
        // No DecoderSpecificInfo, but some other descriptor
        0x13, 0x01, 0xFF, // ExtensionProfileLevelDescr
    ];

    let view = DecoderConfigDescriptorView::parse(&data).unwrap();

    let dec_specific = view.dec_specific_info().unwrap();
    assert!(dec_specific.is_none());
}

#[test]
fn test_decoder_config_descriptor_view_parse_too_short() {
    let data = [0x40, 0x15, 0x00]; // Only 3 bytes, needs 13

    let result = DecoderConfigDescriptorView::parse(&data);
    assert!(result.is_err());
}

#[test]
fn test_decoder_config_descriptor_parse() {
    let data = [
        0x40, // object_type_indication
        0x15, // stream_type byte
        0x00, 0x00, 0x10, // buffer_size_db
        0x00, 0x01, 0x00, 0x00, // max_bitrate
        0x00, 0x00, 0x80, 0x00, // avg_bitrate
        // DecoderSpecificInfo
        0x05, 0x02, 0x11, 0x90,
    ];

    let desc = DecoderConfigDescriptor::parse(&data).unwrap();

    assert_eq!(
        desc.object_type_indication,
        ObjectTypeIndication::mpeg4_audio()
    );
    assert_eq!(desc.stream_type, StreamType::audio_stream());
    assert!(!desc.up_stream);
    assert!(desc.dec_specific_info.is_some());
    assert!(desc.extentions.is_empty());
}

#[test]
fn test_decoder_config_descriptor_len() {
    let data = [
        0x40, 0x15, 0x00, 0x00, 0x10, 0x00, 0x01, 0x00, 0x00, 0x00, 0x00, 0x80, 0x00, 0x05,
        0x02, 0x11, 0x90,
    ];

    let desc = DecoderConfigDescriptor::parse(&data).unwrap();

    // 13 (fixed) + 4 (DecoderSpecificInfo: tag + size + 2 bytes)
    assert_eq!(desc.encoded_len(), 17);
}

#[test]
fn test_decoder_config_descriptor_write() {
    let data = [
        0x40, 0x15, 0x00, 0x00, 0x10, 0x00, 0x01, 0x00, 0x00, 0x00, 0x00, 0x80, 0x00, 0x05,
        0x02, 0x11, 0x90,
    ];

    let desc = DecoderConfigDescriptor::parse(&data).unwrap();

    let mut buffer = vec![0u8; desc.encoded_len()];
    let written = desc.write(&mut buffer).unwrap();

    assert_eq!(written, data.len());
    // Note: stream_type_byte reserved bit (bit 0) is not preserved
    // Input 0x15 becomes 0x14 after write (reserved bit cleared)
    assert_eq!(buffer[0], 0x40); // object_type_indication
    assert_eq!(buffer[1] >> 2, data[1] >> 2); // stream_type preserved
    assert_eq!(&buffer[2..13], &data[2..13]); // Other fixed fields
}

#[test]
fn test_decoder_config_descriptor_roundtrip() {
    let original_data = [
        0x40, 0x15, 0x00, 0x00, 0x10, 0x00, 0x01, 0x00, 0x00, 0x00, 0x00, 0x80, 0x00,
    ];

    let desc = DecoderConfigDescriptor::parse(&original_data).unwrap();

    let mut buffer = vec![0u8; desc.encoded_len()];
    desc.write(&mut buffer).unwrap();

    let parsed_again = DecoderConfigDescriptor::parse(&buffer).unwrap();

    assert_eq!(
        desc.object_type_indication,
        parsed_again.object_type_indication
    );
    assert_eq!(desc.stream_type, parsed_again.stream_type);
    assert_eq!(desc.up_stream, parsed_again.up_stream);
    assert_eq!(desc.buffer_size_db, parsed_again.buffer_size_db);
    assert_eq!(desc.max_bitrate, parsed_again.max_bitrate);
    assert_eq!(desc.avg_bitrate, parsed_again.avg_bitrate);
}

fn count_descrs(mut it: DescriptorIter<'_>) -> usize {
    let mut n = 0;
    while it.next().is_some() {
        n += 1;
    }
    n
}
