#[allow(unused_imports)]
use mp4_bmff::rawbox::BoxIter;
#[allow(unused_imports)]
use mp4_bmff::boxes::moov::MoovBoxView;
#[allow(unused_imports)]
use mp4_bmff::codec::BoxCodec;
#[allow(unused_imports)]
use mp4_bmff::codec::BoxDecode;
#[allow(unused_imports)]
use mp4_bmff::codec::BoxEncode;

fn raw_data_empty() -> [u8; 0] {
    []
}

fn raw_data_mvhd_only() -> [u8; 108] {
    [
        // mvhd box (version 0)
        0x00, 0x00, 0x00, 0x6C, // size = 108
        b'm', b'v', b'h', b'd', // type = "mvhd"
        0x00, // version = 0
        0x00, 0x00, 0x00, // flags = 0
        0x00, 0x00, 0x00, 0x00, // creation_time
        0x00, 0x00, 0x00, 0x00, // modification_time
        0x00, 0x00, 0x03, 0xE8, // timescale = 1000
        0x00, 0x00, 0x10, 0x00, // duration = 4096
        0x00, 0x01, 0x00, 0x00, // rate = 1.0 (16.16 fixed point)
        0x01, 0x00, // volume = 1.0 (8.8 fixed point)
        0x00, 0x00, // reserved
        0x00, 0x00, 0x00, 0x00, // reserved[0]
        0x00, 0x00, 0x00, 0x00, // reserved[1]
        // matrix (9 * 4 = 36 bytes)
        0x00, 0x01, 0x00, 0x00, // matrix[0] = 1.0
        0x00, 0x00, 0x00, 0x00, // matrix[1]
        0x00, 0x00, 0x00, 0x00, // matrix[2]
        0x00, 0x00, 0x00, 0x00, // matrix[3]
        0x00, 0x01, 0x00, 0x00, // matrix[4] = 1.0
        0x00, 0x00, 0x00, 0x00, // matrix[5]
        0x00, 0x00, 0x00, 0x00, // matrix[6]
        0x00, 0x00, 0x00, 0x00, // matrix[7]
        0x40, 0x00, 0x00, 0x00, // matrix[8] = 1.0 (16.16)
        // pre_defined (6 * 4 = 24 bytes)
        0x00, 0x00, 0x00, 0x00, 0x00, 0x00, 0x00, 0x00, 0x00, 0x00, 0x00, 0x00, 0x00, 0x00,
        0x00, 0x00, 0x00, 0x00, 0x00, 0x00, 0x00, 0x00, 0x00, 0x00, 0x00, 0x00, 0x00,
        0x02, // next_track_id = 2
    ]
}

#[test]
fn test_moov_box_view_decode_empty() {
    let data = raw_data_empty();
    let moov = MoovBoxView::decode(&data).unwrap();

    assert_eq!(count_boxes(moov.boxes()), 0);
}

#[test]
fn test_moov_box_view_missing_required_mvhd() {
    let data = raw_data_empty();
    let moov = MoovBoxView::decode(&data).unwrap();

    let result = moov.mvhd();
    assert!(result.is_err());
}

#[test]
fn test_moov_box_view_mvhd_present() {
    let data = raw_data_mvhd_only();
    let moov = MoovBoxView::decode(&data).unwrap();

    let mvhd = moov.mvhd().unwrap();
    assert_eq!(mvhd.timescale, 1000);
    assert_eq!(mvhd.next_track_id, 2);
}

#[test]
fn test_moov_box_view_no_traks() {
    let data = raw_data_mvhd_only();
    let moov = MoovBoxView::decode(&data).unwrap();

    assert_eq!(moov.traks().unwrap().len(), 0);
}

#[test]
fn test_moov_box_view_mvex_not_present() {
    let data = raw_data_mvhd_only();
    let moov = MoovBoxView::decode(&data).unwrap();

    assert!(moov.mvex().unwrap().is_none());
}

fn count_boxes(mut it: BoxIter<'_>) -> usize {
    let mut n = 0;
    while it.next().is_some() {
        n += 1;
    }
    n
}
