#[allow(unused_imports)]
use mp4_bmff::rawbox::BoxIter;
#[allow(unused_imports)]
use mp4_bmff::boxes::stbl::ChunkOffset;
#[allow(unused_imports)]
use mp4_bmff::boxes::stbl::SampleSize;
#[allow(unused_imports)]
use mp4_bmff::boxes::stbl::StblBox;
#[allow(unused_imports)]
use mp4_bmff::boxes::stbl::StblBoxView;
#[allow(unused_imports)]
use mp4_bmff::codec::BoxCodec;
#[allow(unused_imports)]
use mp4_bmff::codec::BoxDecode;
#[allow(unused_imports)]
use mp4_bmff::codec::BoxEncode;

fn raw_data_empty() -> [u8; 0] {
    []
}

// Minimal stbl with required child boxes: stsd, stts, stsz, stsc, stco
fn raw_data_minimal() -> Vec<u8> {
    let mut data = Vec::new();

    // stsd box (minimal)
    data.extend_from_slice(&[
        0x00, 0x00, 0x00, 0x10, // size = 16
        b's', b't', b's', b'd', // type = "stsd"
        0x00, // version = 0
        0x00, 0x00, 0x00, // flags = 0
        0x00, 0x00, 0x00, 0x00, // entry_count = 0
    ]);

    // stts box (minimal)
    data.extend_from_slice(&[
        0x00, 0x00, 0x00, 0x10, // size = 16
        b's', b't', b't', b's', // type = "stts"
        0x00, // version = 0
        0x00, 0x00, 0x00, // flags = 0
        0x00, 0x00, 0x00, 0x00, // entry_count = 0
    ]);

    // stsz box (minimal)
    data.extend_from_slice(&[
        0x00, 0x00, 0x00, 0x14, // size = 20
        b's', b't', b's', b'z', // type = "stsz"
        0x00, // version = 0
        0x00, 0x00, 0x00, // flags = 0
        0x00, 0x00, 0x00, 0x00, // sample_size = 0
        0x00, 0x00, 0x00, 0x00, // sample_count = 0
    ]);

    // stsc box (minimal)
    data.extend_from_slice(&[
        0x00, 0x00, 0x00, 0x10, // size = 16
        b's', b't', b's', b'c', // type = "stsc"
        0x00, // version = 0
        0x00, 0x00, 0x00, // flags = 0
        0x00, 0x00, 0x00, 0x00, // entry_count = 0
    ]);

    // stco box (minimal)
    data.extend_from_slice(&[
        0x00, 0x00, 0x00, 0x10, // size = 16
        b's', b't', b'c', b'o', // type = "stco"
        0x00, // version = 0
        0x00, 0x00, 0x00, // flags = 0
        0x00, 0x00, 0x00, 0x00, // entry_count = 0
    ]);

    data
}

#[test]
fn test_stbl_box_view_decode_empty() {
    let data = raw_data_empty();
    let stbl = StblBoxView::decode(&data).unwrap();

    assert_eq!(count_boxes(stbl.boxes()), 0);
}

#[test]
fn test_stbl_box_view_missing_required_stsd() {
    let data = raw_data_empty();
    let stbl = StblBoxView::decode(&data).unwrap();

    let result = stbl.stsd();
    assert!(result.is_err());
}

#[test]
fn test_stbl_box_view_decode_minimal() {
    let data = raw_data_minimal();
    let stbl = StblBoxView::decode(&data).unwrap();

    assert!(stbl.stsd().is_ok());
    assert!(stbl.stts().is_ok());
    assert!(stbl.stsz().is_ok());
    assert!(stbl.stsc().is_ok());
    assert!(stbl.stco().is_ok());

    // Optional boxes should return Ok(None)
    assert!(stbl.ctts().unwrap().is_none());
    assert!(stbl.cslg().unwrap().is_none());
    assert!(stbl.stss().unwrap().is_none());
    assert!(stbl.stsh().unwrap().is_none());
    assert!(stbl.sdtp().unwrap().is_none());
}

#[test]
fn test_stbl_box_try_from() {
    let data = raw_data_minimal();
    let view = StblBoxView::decode(&data).unwrap();
    let owned = StblBox::try_from(&view).unwrap();

    assert_eq!(owned.stsd.entries.len(), 0);
    assert_eq!(owned.stts.entries.len(), 0);
    match owned.sample_size {
        SampleSize::Stsz(ref stsz) => assert_eq!(stsz.entries.len(), 0),
        SampleSize::Stz2(ref stz2) => assert_eq!(stz2.entries.len(), 0),
    }
    assert_eq!(owned.stsc.entries.len(), 0);
    match owned.chunk_offset {
        ChunkOffset::Stco(ref stco) => assert_eq!(stco.entries.len(), 0),
        ChunkOffset::Co64(ref co64) => assert_eq!(co64.entries.len(), 0),
    }
}

fn count_boxes(mut it: BoxIter<'_>) -> usize {
    let mut n = 0;
    while it.next().is_some() {
        n += 1;
    }
    n
}
