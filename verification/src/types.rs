//! Primitive BMFF value types: four-character codes, box types, fixed-point
//! numbers, fractions, language codes, timestamps and transformation matrices.
use vstd::prelude::*;

use crate::bytes::{be32, u32_bytes};

verus! {

/// A four-character code, held as its big-endian 32-bit value.
#[derive(Clone, Copy, PartialEq, Eq, Structural, Hash, Debug)]
pub struct FourCC(pub u32);

impl FourCC {
    /// The four bytes of the code, in order.
    pub open spec fn spec_bytes(self) -> Seq<u8> {
        u32_bytes(self.0)
    }

    /// Builds a code from its four bytes.
    pub fn new(bytes: [u8; 4]) -> (r: FourCC)
        ensures
            r.0 == be32(bytes@, 0),
    {
        FourCC(
            (bytes[0] as u32) * 0x1000000 + (bytes[1] as u32) * 0x10000 + (bytes[2] as u32) * 0x100
                + (bytes[3] as u32),
        )
    }

    /// The four bytes of the code, in order.
    pub fn as_bytes(&self) -> (r: [u8; 4])
        ensures
            r@ == self.spec_bytes(),
    {
        let x = self.0;
        let r = [(x / 0x1000000) as u8, ((x / 0x10000) % 0x100) as u8, ((x / 0x100) % 0x100) as u8, (x % 0x100) as u8];
        assert(r@ =~= u32_bytes(x));
        r
    }
}

impl From<[u8; 4]> for FourCC {
    fn from(bytes: [u8; 4]) -> (r: FourCC) {
        FourCC::new(bytes)
    }
}

impl vstd::std_specs::convert::FromSpecImpl<[u8; 4]> for FourCC {
    open spec fn obeys_from_spec() -> bool {
        true
    }

    open spec fn from_spec(bytes: [u8; 4]) -> FourCC {
        FourCC(be32(bytes@, 0))
    }
}

/// The type of a box: the four-character code in its header. The types this
/// library knows have a variant of their own; any other code is `Other`.
#[allow(non_camel_case_types)]
#[derive(Clone, Copy, PartialEq, Eq, Structural, Hash, Debug)]
pub enum BoxType {
    /// File Type Box (`ftyp`).
    FTYP,
    /// Media Data Box (`mdat`).
    MDAT,
    /// Free Space Box (`free`).
    FREE,
    /// Skip Box (`skip`).
    SKIP,
    /// Progressive Download Information Box (`pdin`).
    PDIN,
    /// Movie Box (`moov`).
    MOOV,
    /// Movie Header Box (`mvhd`).
    MVHD,
    /// Track Box (`trak`).
    TRAK,
    /// Track Header Box (`tkhd`).
    TKHD,
    /// Track Reference Box (`tref`).
    TREF,
    /// Track Group Box (`trgr`).
    TRGR,
    /// Media Box (`mdia`).
    MDIA,
    /// Media Header Box (`mdhd`).
    MDHD,
    /// Handler Reference Box (`hdlr`).
    HDLR,
    /// Media Information Box (`minf`).
    MINF,
    /// Null Media Header Box (`nmhd`).
    NMHD,
    /// Extended language tag Box (`elng`).
    ELNG,
    /// Sample Table Box (`stbl`).
    STBL,
    /// Sample Description Box (`stsd`).
    STSD,
    /// Degradation Priority Box (`stdp`).
    STDP,
    /// Decoding Time to Sample Box (`stts`).
    STTS,
    /// Composition Time to Sample Box (`ctts`).
    CTTS,
    /// Composition to Decode Box (`cslg`).
    CSLG,
    /// Sync Sample Box (`stss`).
    STSS,
    /// Shadow Sync Sample Box (`stsh`).
    STSH,
    /// Independent and Disposable Samples Box (`sdtp`).
    SDTP,
    /// Edit Box (`edts`).
    EDTS,
    /// Edit List Box (`elst`).
    ELST,
    /// Data Information Box (`dinf`).
    DINF,
    /// Data Reference Box (`dref`).
    DREF,
    /// URL Box (`url `).
    URL_,
    /// URN Box (`urn `).
    URN_,
    /// Sample Size Box (`stsz`).
    STSZ,
    /// Compact Sample Size Box (`stz2`).
    STZ2,
    /// Sample To Chunk Box (`stsc`).
    STSC,
    /// Chunk Offset Box (`stco`).
    STCO,
    /// Chunk Large Offset Box (`co64`).
    CO64,
    /// Movie Extends Box (`mvex`).
    MVEX,
    /// Movie Extends Header Box (`mehd`).
    MEHD,
    /// Track Extends Box (`trex`).
    TREX,
    /// Movie Fragment Box (`moof`).
    MOOF,
    /// Movie Fragment Header Box (`mfhd`).
    MFHD,
    /// Track Fragment Box (`traf`).
    TRAF,
    /// Track Fragment Header Box (`tfhd`).
    TFHD,
    /// Track Run Box (`trun`).
    TRUN,
    /// Movie Fragment Random Access Box (`mfra`).
    MFRA,
    /// Track Fragment Random Access Box (`tfra`).
    TFRA,
    /// Movie Fragment Random Access Offset Box (`mfro`).
    MFRO,
    /// Track Fragment Decode Time (`tfdt`).
    TFDT,
    /// Segment Type Box (`styp`).
    STYP,
    /// Video media header (`vmhd`).
    VMHD,
    /// Sound media header (`smhd`).
    SMHD,
    /// Hint media header (`hmhd`).
    HMHD,
    /// Bit Rate Box (`btrt`).
    BTRT,
    /// Channel Layout Box (`chnl`).
    CHNL,
    /// Clean Aperture Box (`clap`).
    CLAP,
    /// Colour Information Box (`colr`).
    COLR,
    /// Downmix Instructions Box (`dmix`).
    DMIX,
    /// Pixel Aspect Ratio Box (`pasp`).
    PASP,
    /// Sample To Group Box (`sbgp`).
    SBGP,
    /// Sample Group Description Box (`sgpd`).
    SGPD,
    /// AVC Configuration Box (`avcC`).
    AVCC,
    /// MPEG-4 Extension Descriptors Box (`m4ds`).
    M4DS,
    /// AVC sample entry (`avc1`).
    AVC1,
    /// AVC sample entry (in-band parameter sets) (`avc3`).
    AVC3,
    /// AVC sample entry with extractors (`avc2`).
    AVC2,
    /// AVC sample entry with extractors (in-band parameter sets) (`avc4`).
    AVC4,
    /// A box type without a variant of its own.
    Other(FourCC),
}

/// Whether `c` is the code of a box type that has a variant of its own.
pub open spec fn is_known_code(c: u32) -> bool {
    c == 0x66747970 || c == 0x6d646174 || c == 0x66726565 || c == 0x736b6970 || c == 0x7064696e || c == 0x6d6f6f76 || c == 0x6d766864 || c == 0x7472616b || c == 0x746b6864 || c == 0x74726566 || c == 0x74726772 || c == 0x6d646961 || c == 0x6d646864 || c == 0x68646c72 || c == 0x6d696e66 || c == 0x6e6d6864 || c == 0x656c6e67 || c == 0x7374626c || c == 0x73747364 || c == 0x73746470 || c == 0x73747473 || c == 0x63747473 || c == 0x63736c67 || c == 0x73747373 || c == 0x73747368 || c == 0x73647470 || c == 0x65647473 || c == 0x656c7374 || c == 0x64696e66 || c == 0x64726566 || c == 0x75726c20 || c == 0x75726e20 || c == 0x7374737a || c == 0x73747a32 || c == 0x73747363 || c == 0x7374636f || c == 0x636f3634 || c == 0x6d766578 || c == 0x6d656864 || c == 0x74726578 || c == 0x6d6f6f66 || c == 0x6d666864 || c == 0x74726166 || c == 0x74666864 || c == 0x7472756e || c == 0x6d667261 || c == 0x74667261 || c == 0x6d66726f || c == 0x74666474 || c == 0x73747970 || c == 0x766d6864 || c == 0x736d6864 || c == 0x686d6864 || c == 0x62747274 || c == 0x63686e6c || c == 0x636c6170 || c == 0x636f6c72 || c == 0x646d6978 || c == 0x70617370 || c == 0x73626770 || c == 0x73677064 || c == 0x61766343 || c == 0x6d346473 || c == 0x61766331 || c == 0x61766333 || c == 0x61766332 || c == 0x61766334
}

impl BoxType {
    /// The four-character code of this box type, as a big-endian value.
    pub open spec fn code(self) -> u32 {
        match self {
            BoxType::FTYP => 0x66747970,
            BoxType::MDAT => 0x6d646174,
            BoxType::FREE => 0x66726565,
            BoxType::SKIP => 0x736b6970,
            BoxType::PDIN => 0x7064696e,
            BoxType::MOOV => 0x6d6f6f76,
            BoxType::MVHD => 0x6d766864,
            BoxType::TRAK => 0x7472616b,
            BoxType::TKHD => 0x746b6864,
            BoxType::TREF => 0x74726566,
            BoxType::TRGR => 0x74726772,
            BoxType::MDIA => 0x6d646961,
            BoxType::MDHD => 0x6d646864,
            BoxType::HDLR => 0x68646c72,
            BoxType::MINF => 0x6d696e66,
            BoxType::NMHD => 0x6e6d6864,
            BoxType::ELNG => 0x656c6e67,
            BoxType::STBL => 0x7374626c,
            BoxType::STSD => 0x73747364,
            BoxType::STDP => 0x73746470,
            BoxType::STTS => 0x73747473,
            BoxType::CTTS => 0x63747473,
            BoxType::CSLG => 0x63736c67,
            BoxType::STSS => 0x73747373,
            BoxType::STSH => 0x73747368,
            BoxType::SDTP => 0x73647470,
            BoxType::EDTS => 0x65647473,
            BoxType::ELST => 0x656c7374,
            BoxType::DINF => 0x64696e66,
            BoxType::DREF => 0x64726566,
            BoxType::URL_ => 0x75726c20,
            BoxType::URN_ => 0x75726e20,
            BoxType::STSZ => 0x7374737a,
            BoxType::STZ2 => 0x73747a32,
            BoxType::STSC => 0x73747363,
            BoxType::STCO => 0x7374636f,
            BoxType::CO64 => 0x636f3634,
            BoxType::MVEX => 0x6d766578,
            BoxType::MEHD => 0x6d656864,
            BoxType::TREX => 0x74726578,
            BoxType::MOOF => 0x6d6f6f66,
            BoxType::MFHD => 0x6d666864,
            BoxType::TRAF => 0x74726166,
            BoxType::TFHD => 0x74666864,
            BoxType::TRUN => 0x7472756e,
            BoxType::MFRA => 0x6d667261,
            BoxType::TFRA => 0x74667261,
            BoxType::MFRO => 0x6d66726f,
            BoxType::TFDT => 0x74666474,
            BoxType::STYP => 0x73747970,
            BoxType::VMHD => 0x766d6864,
            BoxType::SMHD => 0x736d6864,
            BoxType::HMHD => 0x686d6864,
            BoxType::BTRT => 0x62747274,
            BoxType::CHNL => 0x63686e6c,
            BoxType::CLAP => 0x636c6170,
            BoxType::COLR => 0x636f6c72,
            BoxType::DMIX => 0x646d6978,
            BoxType::PASP => 0x70617370,
            BoxType::SBGP => 0x73626770,
            BoxType::SGPD => 0x73677064,
            BoxType::AVCC => 0x61766343,
            BoxType::M4DS => 0x6d346473,
            BoxType::AVC1 => 0x61766331,
            BoxType::AVC3 => 0x61766333,
            BoxType::AVC2 => 0x61766332,
            BoxType::AVC4 => 0x61766334,
            BoxType::Other(f) => f.0,
        }
    }

    /// A box type is well formed when `Other` holds no code of a named variant.
    pub open spec fn wf(self) -> bool {
        self matches BoxType::Other(f) ==> !is_known_code(f.0)
    }

    /// The box type with the given code.
    pub fn new(code: FourCC) -> (r: BoxType)
        ensures
            r.code() == code.0,
            r.wf(),
    {
        match code.0 {
            0x66747970 => BoxType::FTYP,
            0x6d646174 => BoxType::MDAT,
            0x66726565 => BoxType::FREE,
            0x736b6970 => BoxType::SKIP,
            0x7064696e => BoxType::PDIN,
            0x6d6f6f76 => BoxType::MOOV,
            0x6d766864 => BoxType::MVHD,
            0x7472616b => BoxType::TRAK,
            0x746b6864 => BoxType::TKHD,
            0x74726566 => BoxType::TREF,
            0x74726772 => BoxType::TRGR,
            0x6d646961 => BoxType::MDIA,
            0x6d646864 => BoxType::MDHD,
            0x68646c72 => BoxType::HDLR,
            0x6d696e66 => BoxType::MINF,
            0x6e6d6864 => BoxType::NMHD,
            0x656c6e67 => BoxType::ELNG,
            0x7374626c => BoxType::STBL,
            0x73747364 => BoxType::STSD,
            0x73746470 => BoxType::STDP,
            0x73747473 => BoxType::STTS,
            0x63747473 => BoxType::CTTS,
            0x63736c67 => BoxType::CSLG,
            0x73747373 => BoxType::STSS,
            0x73747368 => BoxType::STSH,
            0x73647470 => BoxType::SDTP,
            0x65647473 => BoxType::EDTS,
            0x656c7374 => BoxType::ELST,
            0x64696e66 => BoxType::DINF,
            0x64726566 => BoxType::DREF,
            0x75726c20 => BoxType::URL_,
            0x75726e20 => BoxType::URN_,
            0x7374737a => BoxType::STSZ,
            0x73747a32 => BoxType::STZ2,
            0x73747363 => BoxType::STSC,
            0x7374636f => BoxType::STCO,
            0x636f3634 => BoxType::CO64,
            0x6d766578 => BoxType::MVEX,
            0x6d656864 => BoxType::MEHD,
            0x74726578 => BoxType::TREX,
            0x6d6f6f66 => BoxType::MOOF,
            0x6d666864 => BoxType::MFHD,
            0x74726166 => BoxType::TRAF,
            0x74666864 => BoxType::TFHD,
            0x7472756e => BoxType::TRUN,
            0x6d667261 => BoxType::MFRA,
            0x74667261 => BoxType::TFRA,
            0x6d66726f => BoxType::MFRO,
            0x74666474 => BoxType::TFDT,
            0x73747970 => BoxType::STYP,
            0x766d6864 => BoxType::VMHD,
            0x736d6864 => BoxType::SMHD,
            0x686d6864 => BoxType::HMHD,
            0x62747274 => BoxType::BTRT,
            0x63686e6c => BoxType::CHNL,
            0x636c6170 => BoxType::CLAP,
            0x636f6c72 => BoxType::COLR,
            0x646d6978 => BoxType::DMIX,
            0x70617370 => BoxType::PASP,
            0x73626770 => BoxType::SBGP,
            0x73677064 => BoxType::SGPD,
            0x61766343 => BoxType::AVCC,
            0x6d346473 => BoxType::M4DS,
            0x61766331 => BoxType::AVC1,
            0x61766333 => BoxType::AVC3,
            0x61766332 => BoxType::AVC2,
            0x61766334 => BoxType::AVC4,
            _ => BoxType::Other(code),
        }
    }

    /// The code of this box type.
    pub fn type_field(&self) -> (r: FourCC)
        ensures
            r.0 == self.code(),
    {
        match self {
            BoxType::FTYP => FourCC(0x66747970),
            BoxType::MDAT => FourCC(0x6d646174),
            BoxType::FREE => FourCC(0x66726565),
            BoxType::SKIP => FourCC(0x736b6970),
            BoxType::PDIN => FourCC(0x7064696e),
            BoxType::MOOV => FourCC(0x6d6f6f76),
            BoxType::MVHD => FourCC(0x6d766864),
            BoxType::TRAK => FourCC(0x7472616b),
            BoxType::TKHD => FourCC(0x746b6864),
            BoxType::TREF => FourCC(0x74726566),
            BoxType::TRGR => FourCC(0x74726772),
            BoxType::MDIA => FourCC(0x6d646961),
            BoxType::MDHD => FourCC(0x6d646864),
            BoxType::HDLR => FourCC(0x68646c72),
            BoxType::MINF => FourCC(0x6d696e66),
            BoxType::NMHD => FourCC(0x6e6d6864),
            BoxType::ELNG => FourCC(0x656c6e67),
            BoxType::STBL => FourCC(0x7374626c),
            BoxType::STSD => FourCC(0x73747364),
            BoxType::STDP => FourCC(0x73746470),
            BoxType::STTS => FourCC(0x73747473),
            BoxType::CTTS => FourCC(0x63747473),
            BoxType::CSLG => FourCC(0x63736c67),
            BoxType::STSS => FourCC(0x73747373),
            BoxType::STSH => FourCC(0x73747368),
            BoxType::SDTP => FourCC(0x73647470),
            BoxType::EDTS => FourCC(0x65647473),
            BoxType::ELST => FourCC(0x656c7374),
            BoxType::DINF => FourCC(0x64696e66),
            BoxType::DREF => FourCC(0x64726566),
            BoxType::URL_ => FourCC(0x75726c20),
            BoxType::URN_ => FourCC(0x75726e20),
            BoxType::STSZ => FourCC(0x7374737a),
            BoxType::STZ2 => FourCC(0x73747a32),
            BoxType::STSC => FourCC(0x73747363),
            BoxType::STCO => FourCC(0x7374636f),
            BoxType::CO64 => FourCC(0x636f3634),
            BoxType::MVEX => FourCC(0x6d766578),
            BoxType::MEHD => FourCC(0x6d656864),
            BoxType::TREX => FourCC(0x74726578),
            BoxType::MOOF => FourCC(0x6d6f6f66),
            BoxType::MFHD => FourCC(0x6d666864),
            BoxType::TRAF => FourCC(0x74726166),
            BoxType::TFHD => FourCC(0x74666864),
            BoxType::TRUN => FourCC(0x7472756e),
            BoxType::MFRA => FourCC(0x6d667261),
            BoxType::TFRA => FourCC(0x74667261),
            BoxType::MFRO => FourCC(0x6d66726f),
            BoxType::TFDT => FourCC(0x74666474),
            BoxType::STYP => FourCC(0x73747970),
            BoxType::VMHD => FourCC(0x766d6864),
            BoxType::SMHD => FourCC(0x736d6864),
            BoxType::HMHD => FourCC(0x686d6864),
            BoxType::BTRT => FourCC(0x62747274),
            BoxType::CHNL => FourCC(0x63686e6c),
            BoxType::CLAP => FourCC(0x636c6170),
            BoxType::COLR => FourCC(0x636f6c72),
            BoxType::DMIX => FourCC(0x646d6978),
            BoxType::PASP => FourCC(0x70617370),
            BoxType::SBGP => FourCC(0x73626770),
            BoxType::SGPD => FourCC(0x73677064),
            BoxType::AVCC => FourCC(0x61766343),
            BoxType::M4DS => FourCC(0x6d346473),
            BoxType::AVC1 => FourCC(0x61766331),
            BoxType::AVC3 => FourCC(0x61766333),
            BoxType::AVC2 => FourCC(0x61766332),
            BoxType::AVC4 => FourCC(0x61766334),
            BoxType::Other(f) => *f,
        }
    }
}

/// Two well-formed box types are equal exactly when their codes are.
pub proof fn lemma_box_type_code_injective(a: BoxType, b: BoxType)
    requires
        a.wf(),
        b.wf(),
    ensures
        (a == b) <==> (a.code() == b.code()),
{
}

/// Signed 8.8 fixed-point number.
#[derive(Clone, Copy, PartialEq, Eq, Structural, Hash, Default, Debug)]
pub struct I8F8(pub i16);

impl I8F8 {
    /// The number with the given raw value.
    pub fn from_raw(raw: i16) -> (r: I8F8)
        ensures
            r.0 == raw,
    {
        I8F8(raw)
    }

    /// The raw value.
    pub fn to_raw(&self) -> (r: i16)
        ensures
            r == self.0,
    {
        self.0
    }
}

/// Unsigned 8.8 fixed-point number.
#[derive(Clone, Copy, PartialEq, Eq, Structural, Hash, Default, Debug)]
pub struct U8F8(pub u16);

impl U8F8 {
    /// The number with the given raw value.
    pub fn from_raw(raw: u16) -> (r: U8F8)
        ensures
            r.0 == raw,
    {
        U8F8(raw)
    }

    /// The raw value.
    pub fn to_raw(&self) -> (r: u16)
        ensures
            r == self.0,
    {
        self.0
    }
}

/// Unsigned 16.16 fixed-point number.
#[derive(Clone, Copy, PartialEq, Eq, Structural, Hash, Default, Debug)]
pub struct U16F16(pub u32);

impl U16F16 {
    /// The number with the given raw value.
    pub fn from_raw(raw: u32) -> (r: U16F16)
        ensures
            r.0 == raw,
    {
        U16F16(raw)
    }

    /// The raw value.
    pub fn to_raw(&self) -> (r: u32)
        ensures
            r == self.0,
    {
        self.0
    }

    /// The integer part.
    pub fn integer(&self) -> (r: u16)
        ensures
            r == self.0 / 0x10000,
    {
        (self.0 / 0x10000) as u16
    }
}

/// Signed 16.16 fixed-point number.
#[derive(Clone, Copy, PartialEq, Eq, Structural, Hash, Default, Debug)]
pub struct I16F16(pub i32);

impl I16F16 {
    /// The number with the given raw value.
    pub fn from_raw(raw: i32) -> (r: I16F16)
        ensures
            r.0 == raw,
    {
        I16F16(raw)
    }

    /// The raw value.
    pub fn to_raw(&self) -> (r: i32)
        ensures
            r == self.0,
    {
        self.0
    }
}

/// An unsigned 32-bit fraction: numerator and denominator.
#[derive(Clone, Copy, PartialEq, Eq, Structural, Hash, Debug)]
pub struct FractionU32 {
    pub numerator: u32,
    pub denominator: u32,
}

impl FractionU32 {
    /// The fraction `numerator / denominator`.
    pub fn new(numerator: u32, denominator: u32) -> (r: FractionU32)
        ensures
            r.numerator == numerator,
            r.denominator == denominator,
    {
        FractionU32 { numerator, denominator }
    }

    /// The numerator and the denominator.
    pub fn into_raw(self) -> (r: (u32, u32))
        ensures
            r == (self.numerator, self.denominator),
    {
        (self.numerator, self.denominator)
    }
}

/// A 3x3 transformation matrix of 32-bit fixed-point values, row by row
/// (16.16 except the last column, which is 2.30).
#[derive(Clone, Copy, Debug, PartialEq, Eq)]
pub struct Matrix(pub [i32; 9]);

impl Matrix {
    /// The identity transformation.
    pub fn identity() -> (r: Matrix)
        ensures
            r.0@ == seq![0x10000i32, 0, 0, 0, 0x10000, 0, 0, 0, 0x4000_0000],
    {
        let r = Matrix([0x10000, 0, 0, 0, 0x10000, 0, 0, 0, 0x4000_0000]);
        assert(r.0@ =~= seq![0x10000i32, 0, 0, 0, 0x10000, 0, 0, 0, 0x4000_0000]);
        r
    }

    /// The matrix with the given raw values.
    pub fn from_raw(raw: [i32; 9]) -> (r: Matrix)
        ensures
            r.0@ == raw@,
    {
        Matrix(raw)
    }

    /// The raw values.
    pub fn to_raw(&self) -> (r: [i32; 9])
        ensures
            r@ == self.0@,
    {
        self.0
    }
}

/// A timestamp in seconds since 1904-01-01 00:00:00 UTC.
#[derive(Clone, Copy, PartialEq, Eq, Structural, Hash, Default, Debug)]
pub struct QuickTimeDateTime(pub u64);

impl QuickTimeDateTime {
    /// The timestamp `seconds` after the QuickTime epoch.
    pub fn from_quicktime_seconds(seconds: u64) -> (r: QuickTimeDateTime)
        ensures
            r.0 == seconds,
    {
        QuickTimeDateTime(seconds)
    }

    /// The seconds since the QuickTime epoch.
    pub fn to_quicktime_seconds(&self) -> (r: u64)
        ensures
            r == self.0,
    {
        self.0
    }
}

/// An ISO-639-2/T language code, packed as three 5-bit letters (each the
/// letter's code minus 0x60).
#[derive(Clone, Copy, PartialEq, Eq, Structural, Hash, Debug)]
pub struct LanguageCode(pub u16);

/// Whether a packed value holds three letters `a`..`z`, with the top bit clear.
pub open spec fn valid_packed_language(p: u16) -> bool {
    &&& p < 0x8000
    &&& 1 <= (p / 0x400) % 0x20 <= 26
    &&& 1 <= (p / 0x20) % 0x20 <= 26
    &&& 1 <= p % 0x20 <= 26
}

impl LanguageCode {
    /// The code `und` (undetermined).
    pub fn undetermined() -> (r: LanguageCode)
        ensures
            r.0 == 0x55C4,
    {
        LanguageCode(0x55C4)
    }

    /// The code packed in `packed`, if it holds three lower-case letters.
    pub fn from_packed(packed: u16) -> (r: Option<LanguageCode>)
        ensures
            r is Some <==> valid_packed_language(packed),
            r matches Some(c) ==> c.0 == packed,
    {
        let a: u16 = (packed / 0x400) % 0x20;
        let b: u16 = (packed / 0x20) % 0x20;
        let c: u16 = packed % 0x20;
        if packed < 0x8000 && 1 <= a && a <= 26 && 1 <= b && b <= 26 && 1 <= c && c <= 26 {
            Some(LanguageCode(packed))
        } else {
            None
        }
    }

    /// The packed value.
    pub fn to_packed(&self) -> (r: u16)
        ensures
            r == self.0,
    {
        self.0
    }

    /// The three letters of the code.
    pub fn to_chars(&self) -> (r: [u8; 3])
        ensures
            r@ == seq![
                ((self.0 / 0x400) % 0x20 + 0x60) as u8,
                ((self.0 / 0x20) % 0x20 + 0x60) as u8,
                (self.0 % 0x20 + 0x60) as u8,
            ],
    {
        let p = self.0;
        let r = [((p / 0x400) % 0x20 + 0x60) as u8, ((p / 0x20) % 0x20 + 0x60) as u8, (p % 0x20 + 0x60) as u8];
        assert(r@ =~= seq![
                ((p / 0x400) % 0x20 + 0x60) as u8,
                ((p / 0x20) % 0x20 + 0x60) as u8,
                (p % 0x20 + 0x60) as u8,
            ]);
        r
    }
}

} // verus!
