//! The 24-bit flags field of a full box.
use vstd::prelude::*;

use crate::bytes::{be24, u24_bytes};

verus! {

/// The flags of a full box: a 24-bit value, kept in the low bits of a `u32`.
#[derive(Clone, Copy, PartialEq, Eq, Structural, Hash, Debug)]
pub struct BoxFlags(pub u32);

impl BoxFlags {
    /// Track Fragment Header (`tfhd`): `base_data_offset` is present.
    pub const BASE_DATA_OFFSET_PRESENT: u32 = 0x000001;
    /// Track Fragment Header (`tfhd`): `sample_description_index` is present.
    pub const SAMPLE_DESCRIPTION_INDEX_PRESENT: u32 = 0x000002;
    /// Track Fragment Header (`tfhd`): `default_sample_duration` is present.
    pub const DEFAULT_SAMPLE_DURATION_PRESENT: u32 = 0x000008;
    /// Track Fragment Header (`tfhd`): `default_sample_size` is present.
    pub const DEFAULT_SAMPLE_SIZE_PRESENT: u32 = 0x000010;
    /// Track Fragment Header (`tfhd`): `default_sample_flags` is present.
    pub const DEFAULT_SAMPLE_FLAGS_PRESENT: u32 = 0x000020;
    /// Track Fragment Header (`tfhd`): the fragment has no samples.
    pub const DURATION_IS_EMPTY: u32 = 0x010000;
    /// Track Fragment Header (`tfhd`): the base data offset is the enclosing `moof`.
    pub const DEFAULT_BASE_IS_MOOF: u32 = 0x020000;
    /// Track Run (`trun`): `data_offset` is present.
    pub const DATA_OFFSET_PRESENT: u32 = 0x000001;
    /// Track Run (`trun`): `first_sample_flags` is present.
    pub const FIRST_SAMPLE_FLAGS_PRESENT: u32 = 0x000004;
    /// Track Run (`trun`): each sample has a duration.
    pub const SAMPLE_DURATION_PRESENT: u32 = 0x000100;
    /// Track Run (`trun`): each sample has a size.
    pub const SAMPLE_SIZE_PRESENT: u32 = 0x000200;
    /// Track Run (`trun`): each sample has flags.
    pub const SAMPLE_FLAGS_PRESENT: u32 = 0x000400;
    /// Track Run (`trun`): each sample has a composition time offset.
    pub const SAMPLE_COMPOSITION_TIME_OFFSETS_PRESENT: u32 = 0x000800;
    /// Track Header (`tkhd`): the track is enabled.
    pub const TRACK_ENABLED: u32 = 0x000001;
    /// Track Header (`tkhd`): the track is used in the presentation.
    pub const TRACK_IN_MOVIE: u32 = 0x000002;
    /// Track Header (`tkhd`): the track is used when previewing.
    pub const TRACK_IN_PREVIEW: u32 = 0x000004;
    /// Track Header (`tkhd`): width and height give an aspect ratio only.
    pub const TRACK_SIZE_IS_ASPECT_RATIO: u32 = 0x000008;

    /// Flags hold 24 bits.
    pub open spec fn wf(self) -> bool {
        self.0 < 0x100_0000
    }

    /// Whether every bit of `mask` is set in `flags`.
    pub open spec fn has(flags: u32, mask: u32) -> bool {
        flags & mask == mask
    }

    /// Flags with the given value, cut to 24 bits.
    pub fn new(bits: u32) -> (r: BoxFlags)
        ensures
            r.0 == bits % 0x100_0000,
            r.wf(),
    {
        BoxFlags(bits % 0x100_0000)
    }

    /// Flags with no bit set.
    pub fn empty() -> (r: BoxFlags)
        ensures
            r.0 == 0,
    {
        BoxFlags(0)
    }

    /// The flags value.
    pub fn bits(&self) -> (r: u32)
        ensures
            r == self.0,
    {
        self.0
    }

    /// Flags from their three bytes, most significant first.
    pub fn from_be_bytes(bytes: [u8; 3]) -> (r: BoxFlags)
        ensures
            r.0 == be24(bytes@, 0),
            r.wf(),
    {
        BoxFlags((bytes[0] as u32) * 0x10000 + (bytes[1] as u32) * 0x100 + (bytes[2] as u32))
    }

    /// The three bytes of the flags, most significant first.
    pub fn to_be_bytes(&self) -> (r: [u8; 3])
        ensures
            r@ == u24_bytes(self.0),
    {
        let x = self.0;
        let r = [((x / 0x10000) % 0x100) as u8, ((x / 0x100) % 0x100) as u8, (x % 0x100) as u8];
        assert(r@ =~= u24_bytes(x));
        r
    }

    /// Whether every bit of `mask` is set.
    pub fn contains(&self, mask: u32) -> (r: bool)
        ensures
            r == Self::has(self.0, mask),
    {
        self.0 & mask == mask
    }

    /// Sets every bit of `mask`.
    pub fn insert(&mut self, mask: u32)
        ensures
            final(self).0 == old(self).0 | mask,
    {
        self.0 = self.0 | mask;
    }
}

impl Default for BoxFlags {
    fn default() -> (r: BoxFlags)
        ensures
            r.0 == 0,
    {
        BoxFlags(0)
    }
}

/// Flags of the Channel Layout Box (`chnl`).
pub type ChnlFlags = BoxFlags;
/// Flags of the Chunk Large Offset Box (`co64`).
pub type Co64Flags = BoxFlags;
/// Flags of the Downmix Instructions Box (`dmix`).
pub type DmixFlags = BoxFlags;
/// Flags of the Edit List Box (`elst`).
pub type ElstFlags = BoxFlags;
/// Flags of the Handler Reference Box (`hdlr`).
pub type HdlrFlags = BoxFlags;
/// Flags of the Hint Media Header Box (`hmhd`).
pub type HmhdFlags = BoxFlags;
/// Flags of the Media Header Box (`mdhd`).
pub type MdhdFlags = BoxFlags;
/// Flags of the Movie Extends Header Box (`mehd`).
pub type MehdFlags = BoxFlags;
/// Flags of the Movie Fragment Header Box (`mfhd`).
pub type MfhdFlags = BoxFlags;
/// Flags of the Movie Header Box (`mvhd`).
pub type MvhdFlags = BoxFlags;
/// Flags of the Progressive Download Information Box (`pdin`).
pub type PdinFlags = BoxFlags;
/// Flags of the Sample To Group Box (`sbgp`).
pub type SbgpFlags = BoxFlags;
/// Flags of the Independent and Disposable Samples Box (`sdtp`).
pub type SdtpFlags = BoxFlags;
/// Flags of the Sample Group Description Box (`sgpd`).
pub type SgpdFlags = BoxFlags;
/// Flags of the Sound Media Header Box (`smhd`).
pub type SmhdFlags = BoxFlags;
/// Flags of the Degradation Priority Box (`stdp`).
pub type StdpFlags = BoxFlags;
/// Flags of the Sample Description Box (`stsd`).
pub type StsdFlags = BoxFlags;
/// Flags of the Sync Sample Box (`stss`).
pub type StssFlags = BoxFlags;
/// Flags of the Compact Sample Size Box (`stz2`).
pub type Stz2Flags = BoxFlags;
/// Flags of the Track Fragment Decode Time Box (`tfdt`).
pub type TfdtFlags = BoxFlags;
/// Flags of the Track Fragment Header Box (`tfhd`).
pub type TfhdFlags = BoxFlags;
/// Flags of the Track Header Box (`tkhd`).
pub type TkhdFlags = BoxFlags;
/// Flags of the Track Extends Box (`trex`).
pub type TrexFlags = BoxFlags;
/// Flags of the Track Run Box (`trun`).
pub type TrunFlags = BoxFlags;
/// Flags of the Video Media Header Box (`vmhd`).
pub type VmhdFlags = BoxFlags;

/// Flags of the Composition to Decode Box (`cslg`).
pub type CslgFlags = BoxFlags;
/// Flags of the Composition Time to Sample Box (`ctts`).
pub type CttsFlags = BoxFlags;
/// Flags of the Chunk Offset Box (`stco`).
pub type StcoFlags = BoxFlags;
/// Flags of the Sample to Chunk Box (`stsc`).
pub type StscFlags = BoxFlags;
/// Flags of the Shadow Sync Sample Box (`stsh`).
pub type StshFlags = BoxFlags;
/// Flags of the Sample Size Box (`stsz`).
pub type StszFlags = BoxFlags;
/// Flags of the Decoding Time to Sample Box (`stts`).
pub type SttsFlags = BoxFlags;
/// Flags of the Data Reference Box (`dref`).
pub type DrefFlags = BoxFlags;

} // verus!
