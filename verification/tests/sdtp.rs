#[allow(unused_imports)]
use mp4_bmff::boxes::common::IsLeading;
#[allow(unused_imports)]
use mp4_bmff::boxes::common::SampleDependsOn;
#[allow(unused_imports)]
use mp4_bmff::boxes::common::SampleHasRedundancy;
#[allow(unused_imports)]
use mp4_bmff::boxes::common::SampleIsDependedOn;
#[allow(unused_imports)]
use mp4_bmff::boxes::sdtp::SdtpBox;
#[allow(unused_imports)]
use mp4_bmff::boxes::sdtp::SdtpBoxView;
#[allow(unused_imports)]
use mp4_bmff::boxes::sdtp::SdtpEntry;
#[allow(unused_imports)]
use mp4_bmff::codec::BoxCodec;
#[allow(unused_imports)]
use mp4_bmff::codec::BoxDecode;
#[allow(unused_imports)]
use mp4_bmff::codec::BoxEncode;

fn raw_data() -> [u8; 10] {
    [
        0x00, // version = 0
        0x00,
        0x00,
        0x00, // flags (3 bytes)
        0x00,
        0x00,
        0x00,
        0x02, // entry_count = 2
        // entry 1: is_leading=3, sample_depends_on=2, sample_is_depended_on=1, sample_has_redundancy=0
        0b11_10_01_00, // 0xE4
        // entry 2: is_leading=0, sample_depends_on=1, sample_is_depended_on=2, sample_has_redundancy=3
        0b00_01_10_11, // 0x1B
    ]
}

#[test]
fn test_sdtp_box_view_decode() {
    let data = raw_data();
    let sdtp = SdtpBoxView::decode(&data).unwrap();

    assert_eq!(sdtp.version, 0);
    assert_eq!(sdtp.flags.bits(), 0);
    assert_eq!(sdtp.entry_count, 2);

    let mut entries = sdtp.entries().into_iter();
    let first = entries.next().unwrap();
    assert_eq!(first.is_leading, IsLeading::NoDependencyBefore);
    assert_eq!(first.sample_depends_on, SampleDependsOn::NotOthers);
    assert_eq!(first.sample_is_depended_on, SampleIsDependedOn::Yes);
    assert_eq!(first.sample_has_redundancy, SampleHasRedundancy::Unknown);

    let second = entries.next().unwrap();
    assert_eq!(second.is_leading, IsLeading::Unknown);
    assert_eq!(second.sample_depends_on, SampleDependsOn::Others);
    assert_eq!(second.sample_is_depended_on, SampleIsDependedOn::No);
    assert_eq!(second.sample_has_redundancy, SampleHasRedundancy::Reserved);

    assert!(entries.next().is_none());
}

#[test]
fn test_sdtp_box_view_empty_entries() {
    let data: [u8; 8] = [
        0x00, // version = 0
        0x00, 0x00, 0x00, // flags (3 bytes)
        0x00, 0x00, 0x00, 0x00, // entry_count = 0
    ];

    let sdtp = SdtpBoxView::decode(&data).unwrap();
    assert_eq!(sdtp.version, 0);
    assert_eq!(sdtp.entry_count, 0);
    assert_eq!(sdtp.entries().into_iter().count(), 0);
}

#[test]
fn test_sdtp_box_view_invalid_size() {
    // entry_count = 3 but only 2 entries provided
    let data: [u8; 10] = [
        0x00, // version = 0
        0x00, 0x00, 0x00, // flags (3 bytes)
        0x00, 0x00, 0x00, 0x03, // entry_count = 3
        0xE4, 0x1B, // only 2 entries
    ];

    let result = SdtpBoxView::decode(&data);
    assert!(result.is_err());
}

#[test]
fn test_sdtp_box_view_truncated() {
    let data: [u8; 4] = [0x00; 4]; // too short

    let result = SdtpBoxView::decode(&data);
    assert!(result.is_err());
}

#[test]
fn test_sdtp_entry_round_trip() {
    let entry = SdtpEntry {
        is_leading: IsLeading::NotLeading,
        sample_depends_on: SampleDependsOn::Others,
        sample_is_depended_on: SampleIsDependedOn::Reserved,
        sample_has_redundancy: SampleHasRedundancy::Unknown,
    };

    let bytes = entry.to_bytes();

    let decoded = SdtpEntry::from_bytes(&bytes);
    assert_eq!(decoded.is_leading, entry.is_leading);
    assert_eq!(decoded.sample_depends_on, entry.sample_depends_on);
    assert_eq!(decoded.sample_is_depended_on, entry.sample_is_depended_on);
    assert_eq!(decoded.sample_has_redundancy, entry.sample_has_redundancy);
}

#[test]
fn test_sdtp_box_round_trip() {

    let original = raw_data();
    let sdtp = SdtpBox::decode(&original).unwrap();

    let mut encoded = vec![0u8; sdtp.encoded_len()];
    sdtp.encode_into(&mut encoded).unwrap();

    assert_eq!(&encoded[..], &original[..]);
}

#[test]
fn test_sdtp_box_to_owned() {
    let data = raw_data();
    let view = SdtpBoxView::decode(&data).unwrap();
    let owned = view.to_owned();

    assert_eq!(owned.version, view.version);
    assert_eq!(owned.flags.bits(), view.flags.bits());
    assert_eq!(owned.entries.len(), view.entry_count as usize);
}
