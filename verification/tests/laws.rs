use mp4_bmff::rawbox::{BoxHeader, BoxSize};
use mp4_bmff::types::BoxType;
use mp4_bmff::boxes::common::{embed_2bit, extract_2bit, IsLeading, SampleDependsOn, SampleFlags};
use mp4_bmff::boxes::stbl::ChunkOffset;
use mp4_bmff::boxes::stz2::{Stz2Box, Stz2BoxView, Stz2Entry};
use mp4_bmff::boxes::trun::{TrunBox, TrunBoxView, TrunEntry};
use mp4_bmff::codec::{boxed_len, write_box_at, BoxDecode, BoxEncode};
use mp4_bmff::error::ErrorKind;
use mp4_bmff::flags::BoxFlags;
use mp4_bmff::formats::mpeg4::systems::descriptor::{RawDescriptorRef, SizeOfInstance};

fn encode<T: BoxEncode>(b: &T) -> Vec<u8> {
    let mut buf = vec![0u8; b.encoded_len()];
    let n = b.encode_into(&mut buf).unwrap();
    assert_eq!(n, buf.len());
    buf
}

fn trun_flags() -> BoxFlags {
    BoxFlags::new(
        BoxFlags::SAMPLE_DURATION_PRESENT
            | BoxFlags::SAMPLE_SIZE_PRESENT
            | BoxFlags::SAMPLE_COMPOSITION_TIME_OFFSETS_PRESENT,
    )
}

fn entry(duration: u32, size: u32, cto: i64) -> TrunEntry {
    TrunEntry { duration: Some(duration), size: Some(size), flags: None, composition_time_offset: Some(cto) }
}

#[test]
fn law_trun_push_then_get() {
    let mut trun = TrunBox::new(trun_flags(), true);
    trun.push_entry(entry(1000, 4096, -5));
    trun.push_entry(entry(2000, 512, 7));
    assert_eq!(trun.sample_count(), 2);
    let e = trun.get_entry(1).unwrap();
    assert_eq!(e.duration, Some(2000));
    assert_eq!(e.size, Some(512));
    assert!(e.flags.is_none());
    assert_eq!(e.composition_time_offset, Some(7));
    assert!(trun.get_entry(2).is_none());
}

#[test]
fn law_trun_encode_then_decode() {
    let mut trun = TrunBox::new(trun_flags(), true);
    trun.push_entry(entry(1000, 4096, -5));
    trun.push_entry(entry(2000, 512, 7));
    let bytes = encode(&trun);
    // version/flags + count + 2 samples of 12 bytes
    assert_eq!(bytes.len(), 8 + 24);
    assert_eq!(&bytes[..8], &[0x01, 0x00, 0x0B, 0x00, 0x00, 0x00, 0x00, 0x02]);
    // the negative offset is written as its two's complement
    assert_eq!(&bytes[16..20], &[0xFF, 0xFF, 0xFF, 0xFB]);
    let back = TrunBox::decode(&bytes).unwrap();
    assert_eq!(back.sample_count(), 2);
    assert_eq!(back.get_entry(0).unwrap().composition_time_offset, Some(-5));
    assert_eq!(back.get_entry(1).unwrap().size, Some(512));
    assert_eq!(encode(&back), bytes);
}

#[test]
fn own_trun_cto_out_of_range_for_version_zero() {
    let mut trun = TrunBox::new(trun_flags(), false);
    trun.push_entry(entry(1, 1, -1));
    let mut buf = vec![0u8; trun.encoded_len()];
    assert!(trun.encode_into(&mut buf).is_err());
}

#[test]
fn own_trun_view_too_few_samples() {
    let data = [0x00, 0x00, 0x01, 0x00, 0x00, 0x00, 0x00, 0x02, 0x00, 0x00, 0x00, 0x01];
    assert!(TrunBoxView::decode(&data).is_err());
}

#[test]
fn law_stz2_picks_narrowest_width() {
    let mut b = Stz2Box::default();
    for s in [1u16, 2, 3] {
        b.entries.push(Stz2Entry { entry_size: s });
    }
    assert_eq!(b.field_size(), Some(4));
    let bytes = encode(&b);
    // 12 header bytes, then 1,2 | 3,0 packed in nibbles
    assert_eq!(bytes, vec![0, 0, 0, 0, 0, 0, 0, 4, 0, 0, 0, 3, 0x12, 0x30]);
    let view = Stz2BoxView::decode(&bytes).unwrap();
    let sizes: Vec<u16> = view.entries().iter().map(|e| e.entry_size).collect();
    assert_eq!(sizes, vec![1, 2, 3]);

    b.entries.push(Stz2Entry { entry_size: 300 });
    assert_eq!(b.field_size(), Some(16));
    let back = Stz2Box::decode(&encode(&b)).unwrap();
    let sizes: Vec<u16> = back.entries.iter().map(|e| e.entry_size).collect();
    assert_eq!(sizes, vec![1, 2, 3, 300]);
}

#[test]
fn own_stz2_without_entries() {
    let b = Stz2Box::default();
    assert_eq!(b.field_size(), None);
    assert_eq!(b.encoded_len(), 12);
}

#[test]
fn law_sample_flags_fields_are_independent() {
    let f = SampleFlags::from_raw(0)
        .with_is_leading(IsLeading::NotLeading)
        .with_sample_depends_on(SampleDependsOn::NotOthers)
        .with_sample_is_non_sync(true)
        .with_sample_degradation_priority(0xBEEF);
    assert_eq!(f.is_leading(), IsLeading::NotLeading);
    assert_eq!(f.sample_depends_on(), SampleDependsOn::NotOthers);
    assert!(f.sample_is_non_sync());
    assert!(!f.is_sync());
    assert_eq!(f.sample_degradation_priority(), 0xBEEF);
    assert_eq!(f.to_raw(), 0x0A01_BEEF);
    assert_eq!(SampleFlags::from_raw(f.to_raw()).to_raw(), f.to_raw());
}

#[test]
fn law_embed_then_extract() {
    for shift in [0u32, 2, 20, 30, 31] {
        for v in 0u8..4 {
            let raw = embed_2bit(0xFFFF_FFFF, shift, v);
            assert_eq!(extract_2bit(raw, shift), v);
        }
    }
    assert_eq!(embed_2bit(0, 4, 7), 0x30);
}

#[test]
fn law_chunk_offset_widens_once() {
    let mut c = ChunkOffset::from_offsets(&[1, 2]);
    assert!(matches!(c, ChunkOffset::Stco(_)));
    c.push(0x1_0000_0000);
    assert!(matches!(c, ChunkOffset::Co64(_)));
    c.push(3);
    match c {
        ChunkOffset::Co64(ref b) => {
            let offs: Vec<u64> = b.entries.iter().map(|e| e.chunk_offset).collect();
            assert_eq!(offs, vec![1, 2, 0x1_0000_0000, 3]);
        }
        ChunkOffset::Stco(_) => panic!("expected co64"),
    }
}

#[test]
fn law_descriptor_size_roundtrip() {
    for v in [0u32, 0x7F, 0x80, 0x3FFF, 0x4000, 0x0FFF_FFFF] {
        let size = SizeOfInstance::from_u32(v).unwrap();
        let (bytes, n) = size.to_bytes();
        let expected_len = if v < 0x80 { 1 } else if v < 0x4000 { 2 } else if v < 0x20_0000 { 3 } else { 4 };
        assert_eq!(n, expected_len);
        if v < 0x4000 {
            let mut d = vec![0x05u8];
            d.extend_from_slice(&bytes[..n]);
            d.extend(std::iter::repeat(0xAB).take(v as usize));
            let (r, used) = RawDescriptorRef::parse(&d).unwrap();
            assert_eq!(used, d.len());
            assert_eq!(r.instance().len(), v as usize);
        }
    }
    assert!(SizeOfInstance::from_u32(0x1000_0000).is_none());
    assert_eq!(SizeOfInstance::from_u32(0x80).unwrap().to_bytes().0[..2], [0x81, 0x00]);
}

#[test]
fn own_descriptor_truncated_instance() {
    let d = [0x05u8, 0x03, 0x01];
    assert!(RawDescriptorRef::parse(&d).is_err());
}

#[test]
fn own_boxed_len_and_header() {
    let mut b = Stz2Box::default();
    b.entries.push(Stz2Entry { entry_size: 9 });
    let n = boxed_len(&b);
    assert_eq!(n, 8 + 13);
    let mut buf = vec![0u8; n + 2];
    let end = write_box_at(&mut buf, 2, &b).unwrap();
    assert_eq!(end, n + 2);
    assert_eq!(&buf[2..10], &[0, 0, 0, 21, b's', b't', b'z', b'2']);
}

#[test]
fn own_short_buffer_error_kind() {
    let b = Stz2Box::default();
    let mut buf = vec![0u8; 5];
    let e = b.encode_into(&mut buf).unwrap_err();
    assert!(matches!(e.kind, ErrorKind::NotEnoughBytes { .. }));
}

#[test]
fn own_sample_flags_display() {
    assert_eq!(SampleFlags::sync().display(), "[sync depends=NotOthers]");
    assert_eq!(SampleFlags::from_raw(0).display(), "[sync]");
    let f = SampleFlags::from_raw(0x0101_0000);
    assert_eq!(f.display(), "[non-sync depends=Others]");
}

#[test]
fn own_pasp_default_is_square() {
    let p = mp4_bmff::boxes::pasp::PaspBox::default();
    assert_eq!((p.h_spacing, p.v_spacing), (1, 1));
}

#[test]
fn own_chunk_offset_from_boxes() {
    let c: ChunkOffset = mp4_bmff::boxes::co64::Co64Box::default().into();
    assert!(matches!(c, ChunkOffset::Co64(_)));
}

#[test]
fn own_declared_payload_len() {
    let h = BoxHeader { boxtype: BoxType::FREE, size: BoxSize::Compact(20) };
    assert_eq!(h.declared_payload_len().unwrap(), Some(12));
    let h = BoxHeader { boxtype: BoxType::FREE, size: BoxSize::Eof };
    assert_eq!(h.declared_payload_len().unwrap(), None);
    let h = BoxHeader { boxtype: BoxType::FREE, size: BoxSize::Extended(10) };
    let e = h.declared_payload_len().unwrap_err();
    assert!(matches!(e.kind, ErrorKind::InvalidBoxSize { got: 10, .. }));
}

#[test]
fn own_trun_pushes_then_entries() {
    let mut t = TrunBox::new(BoxFlags::new(BoxFlags::SAMPLE_SIZE_PRESENT), false);
    for k in 0..3u32 {
        t.push_entry(TrunEntry { duration: Some(9), size: Some(100 + k), flags: None, composition_time_offset: None });
    }
    let es = t.entries();
    assert_eq!(es.len(), 3);
    for k in 0..3usize {
        let e = t.get_entry(k).unwrap();
        assert_eq!(e.size, Some(100 + k as u32));
        assert_eq!(e.duration, None);
        assert_eq!(es[k].size, e.size);
    }
    assert!(t.get_entry(3).is_none());
}
