use mp4_bmff::boxes::edts::EdtsBoxView;
use mp4_bmff::boxes::moov::{MoovBox, MoovBoxView};
use mp4_bmff::boxes::mvex::MvexBoxView;
use mp4_bmff::boxes::sgpd::SgpdBoxView;
use mp4_bmff::boxes::stbl::{SampleSize, StblBox, StblBoxView};
use mp4_bmff::boxes::stsz::StszBox;
use mp4_bmff::boxes::tkhd::TkhdBox;
use mp4_bmff::codec::BoxDecode;
use mp4_bmff::error::ErrorKind;
use mp4_bmff::types::BoxType;

fn twice(b: &[u8]) -> Vec<u8> {
    let mut v = b.to_vec();
    v.extend_from_slice(b);
    v
}

#[test]
fn own_stbl_two_co64_is_an_error() {
    let data = twice(&[0, 0, 0, 0x10, b'c', b'o', b'6', b'4', 0, 0, 0, 0, 0, 0, 0, 0]);
    let view = StblBoxView::decode(&data).unwrap();
    let e = view.co64().unwrap_err();
    assert_eq!(e.kind, ErrorKind::BoxDuplicate { duplicate: BoxType::CO64 });
    assert_eq!(e.box_type, Some(BoxType::STBL));
    assert!(view.chunk_offset().is_err());
}

#[test]
fn own_stbl_two_stsc_is_an_error() {
    let data = twice(&[0, 0, 0, 0x10, b's', b't', b's', b'c', 0, 0, 0, 0, 0, 0, 0, 0]);
    let view = StblBoxView::decode(&data).unwrap();
    assert!(view.stsc().is_err());
}

#[test]
fn own_stbl_missing_chunk_offset() {
    let data: [u8; 0] = [];
    let view = StblBoxView::decode(&data).unwrap();
    let e = view.chunk_offset().unwrap_err();
    assert_eq!(e.kind, ErrorKind::BoxMissing { required: BoxType::STCO });
    assert_eq!(e.box_type, Some(BoxType::STBL));
    let e = view.sample_size().unwrap_err();
    assert_eq!(e.kind, ErrorKind::BoxMissing { required: BoxType::STSZ });
}

#[test]
fn own_stbl_co64_then_stco_is_a_duplicate() {
    let data = [
        0, 0, 0, 0x10, b'c', b'o', b'6', b'4', 0, 0, 0, 0, 0, 0, 0, 0, 0, 0, 0, 0x10, b's', b't', b'c', b'o', 0, 0, 0,
        0, 0, 0, 0, 0,
    ];
    let view = StblBoxView::decode(&data).unwrap();
    let e = StblBox::try_from(&view).unwrap_err();
    assert_eq!(e.kind, ErrorKind::BoxDuplicate { duplicate: BoxType::STCO });
    assert_eq!(e.box_type, Some(BoxType::STBL));
    assert_eq!(e.offset, None);
}

#[test]
fn own_mvex_two_mehd_is_an_error() {
    let data = [
        0, 0, 0, 0x10, b'm', b'e', b'h', b'd', 0, 0, 0, 0, 0, 0, 0x10, 0, 0, 0, 0, 0x10, b'm', b'e', b'h', b'd', 0, 0,
        0, 0, 0, 0, 0x20, 0,
    ];
    let view = MvexBoxView::decode(&data).unwrap();
    let e = view.mehd().unwrap_err();
    assert_eq!(e.kind, ErrorKind::BoxDuplicate { duplicate: BoxType::MEHD });
}

#[test]
fn own_edts_two_elst_is_an_error() {
    let data = twice(&[0, 0, 0, 0x10, b'e', b'l', b's', b't', 0, 0, 0, 0, 0, 0, 0, 0]);
    let view = EdtsBoxView::decode(&data).unwrap();
    assert!(view.elst().is_err());
}

#[test]
fn own_moov_without_trak() {
    let mut data = vec![0, 0, 0, 108, b'm', b'v', b'h', b'd'];
    data.extend_from_slice(&[0u8; 100]);
    let view = MoovBoxView::decode(&data).unwrap();
    let e = MoovBox::try_from(&view).unwrap_err();
    assert_eq!(e.kind, ErrorKind::BoxMissing { required: BoxType::TRAK });
    assert_eq!(e.box_type, Some(BoxType::MOOV));
    let empty: [u8; 0] = [];
    let view = MoovBoxView::decode(&empty).unwrap();
    let e = MoovBox::try_from(&view).unwrap_err();
    assert_eq!(e.kind, ErrorKind::BoxMissing { required: BoxType::MVHD });
}

#[test]
fn own_moov_two_mvhd() {
    let mut one = vec![0, 0, 0, 108, b'm', b'v', b'h', b'd'];
    one.extend_from_slice(&[0u8; 100]);
    let data = twice(&one);
    let view = MoovBoxView::decode(&data).unwrap();
    let e = MoovBox::try_from(&view).unwrap_err();
    assert_eq!(e.kind, ErrorKind::BoxDuplicate { duplicate: BoxType::MVHD });
    assert_eq!(e.box_type, Some(BoxType::MOOV));
}

#[test]
fn own_sample_size_get_is_bounded() {
    let mut stsz = StszBox::default();
    stsz.sample_size = 100;
    stsz.sample_count = 2;
    let s = SampleSize::Stsz(stsz);
    assert_eq!(s.get(0), Some(100));
    assert_eq!(s.get(1), Some(100));
    assert_eq!(s.get(2), None);
}

#[test]
fn own_sgpd_cut_off_description() {
    let data = [0x01, 0, 0, 0, b'r', b'o', b'l', b'l', 0, 0, 0, 0, 0, 0, 0, 1, 0, 0, 0, 4, 0xAA, 0xBB, 0xCC];
    let view = SgpdBoxView::decode(&data).unwrap();
    let mut it = view.sample_group_entries().unwrap();
    let e = it.next().unwrap().unwrap_err();
    assert_eq!(e.kind, ErrorKind::NotEnoughBytes { expected: 4, remaining: 3 });
    assert!(it.next().is_none());
}

#[test]
fn own_tkhd_bad_version() {
    let mut data = vec![2u8, 0, 0, 0];
    data.extend_from_slice(&[0u8; 100]);
    let e = TkhdBox::decode(&data).unwrap_err();
    assert!(matches!(e.kind, ErrorKind::InvalidBoxVersion { got: 2, .. }));
    assert_eq!(e.box_type, Some(BoxType::TKHD));
}

#[test]
fn own_edts_owned_two_elst() {
    let data = twice(&[0, 0, 0, 0x10, b'e', b'l', b's', b't', 0, 0, 0, 0, 0, 0, 0, 0]);
    let view = EdtsBoxView::decode(&data).unwrap();
    let e = mp4_bmff::boxes::edts::EdtsBox::try_from(&view).unwrap_err();
    assert_eq!(e.kind, ErrorKind::BoxDuplicate { duplicate: BoxType::ELST });
    assert_eq!(e.box_type, Some(BoxType::EDTS));
}

#[test]
fn own_dinf_without_dref() {
    let data: [u8; 0] = [];
    let view = mp4_bmff::boxes::dinf::DinfBoxView::decode(&data).unwrap();
    let e = mp4_bmff::boxes::dinf::DinfBox::try_from(&view).unwrap_err();
    assert_eq!(e.kind, ErrorKind::BoxMissing { required: BoxType::DREF });
    assert_eq!(e.box_type, Some(BoxType::DINF));
}
