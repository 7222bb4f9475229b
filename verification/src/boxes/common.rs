//! Types shared by several BMFF boxes: the four two-bit sample dependency
//! fields and the 32-bit sample flags of `trex`, `tfhd` and `trun`.
use vstd::prelude::*;

verus! {

/// is_leading (2 bits): whether a sample is a leading sample.
#[derive(Debug, Clone, Copy, PartialEq, Eq, Structural, Hash, Default)]
pub enum IsLeading {
    #[default]
    Unknown,
    HasDependencyBefore,
    NotLeading,
    NoDependencyBefore,
}

impl IsLeading {
    /// The two-bit value of this variant.
    pub open spec fn spec_bits(self) -> u8 {
        match self {
            IsLeading::Unknown => 0,
            IsLeading::HasDependencyBefore => 1,
            IsLeading::NotLeading => 2,
            IsLeading::NoDependencyBefore => 3,
        }
    }

    /// The variant of a two-bit value.
    pub open spec fn spec_from_bits(b: u8) -> IsLeading {
        
        if b == 1 {
            IsLeading::HasDependencyBefore
        } else if b == 2 {
            IsLeading::NotLeading
        } else if b == 3 {
            IsLeading::NoDependencyBefore
        } else {
            IsLeading::Unknown
        }
    }

    /// The two-bit value of this variant.
    pub fn to_bits(&self) -> (r: u8)
        ensures
            r == self.spec_bits(),
            r < 4,
    {
        match self {
            IsLeading::Unknown => 0,
            IsLeading::HasDependencyBefore => 1,
            IsLeading::NotLeading => 2,
            IsLeading::NoDependencyBefore => 3,
        }
    }

    /// The variant of the low two bits of `b`.
    pub fn from_bits(b: u8) -> (r: IsLeading)
        ensures
            r == Self::spec_from_bits(b & 3),
    {
        match b & 3 {
            1 => IsLeading::HasDependencyBefore,
            2 => IsLeading::NotLeading,
            3 => IsLeading::NoDependencyBefore,
            _ => IsLeading::Unknown,
        }
    }

    /// Reading back the bits of a variant gives the variant.
    pub proof fn lemma_bits_roundtrip(self)
        ensures
            Self::spec_from_bits(self.spec_bits()) == self,
    {
    }
}

/// sample_depends_on (2 bits): whether a sample depends on others.
#[derive(Debug, Clone, Copy, PartialEq, Eq, Structural, Hash, Default)]
pub enum SampleDependsOn {
    #[default]
    Unknown,
    Others,
    NotOthers,
    Reserved,
}

impl SampleDependsOn {
    /// The two-bit value of this variant.
    pub open spec fn spec_bits(self) -> u8 {
        match self {
            SampleDependsOn::Unknown => 0,
            SampleDependsOn::Others => 1,
            SampleDependsOn::NotOthers => 2,
            SampleDependsOn::Reserved => 3,
        }
    }

    /// The variant of a two-bit value.
    pub open spec fn spec_from_bits(b: u8) -> SampleDependsOn {
        
        if b == 1 {
            SampleDependsOn::Others
        } else if b == 2 {
            SampleDependsOn::NotOthers
        } else if b == 3 {
            SampleDependsOn::Reserved
        } else {
            SampleDependsOn::Unknown
        }
    }

    /// The two-bit value of this variant.
    pub fn to_bits(&self) -> (r: u8)
        ensures
            r == self.spec_bits(),
            r < 4,
    {
        match self {
            SampleDependsOn::Unknown => 0,
            SampleDependsOn::Others => 1,
            SampleDependsOn::NotOthers => 2,
            SampleDependsOn::Reserved => 3,
        }
    }

    /// The variant of the low two bits of `b`.
    pub fn from_bits(b: u8) -> (r: SampleDependsOn)
        ensures
            r == Self::spec_from_bits(b & 3),
    {
        match b & 3 {
            1 => SampleDependsOn::Others,
            2 => SampleDependsOn::NotOthers,
            3 => SampleDependsOn::Reserved,
            _ => SampleDependsOn::Unknown,
        }
    }

    /// Reading back the bits of a variant gives the variant.
    pub proof fn lemma_bits_roundtrip(self)
        ensures
            Self::spec_from_bits(self.spec_bits()) == self,
    {
    }
}

/// sample_is_depended_on (2 bits): whether other samples depend on this one.
#[derive(Debug, Clone, Copy, PartialEq, Eq, Structural, Hash, Default)]
pub enum SampleIsDependedOn {
    #[default]
    Unknown,
    Yes,
    No,
    Reserved,
}

impl SampleIsDependedOn {
    /// The two-bit value of this variant.
    pub open spec fn spec_bits(self) -> u8 {
        match self {
            SampleIsDependedOn::Unknown => 0,
            SampleIsDependedOn::Yes => 1,
            SampleIsDependedOn::No => 2,
            SampleIsDependedOn::Reserved => 3,
        }
    }

    /// The variant of a two-bit value.
    pub open spec fn spec_from_bits(b: u8) -> SampleIsDependedOn {
        
        if b == 1 {
            SampleIsDependedOn::Yes
        } else if b == 2 {
            SampleIsDependedOn::No
        } else if b == 3 {
            SampleIsDependedOn::Reserved
        } else {
            SampleIsDependedOn::Unknown
        }
    }

    /// The two-bit value of this variant.
    pub fn to_bits(&self) -> (r: u8)
        ensures
            r == self.spec_bits(),
            r < 4,
    {
        match self {
            SampleIsDependedOn::Unknown => 0,
            SampleIsDependedOn::Yes => 1,
            SampleIsDependedOn::No => 2,
            SampleIsDependedOn::Reserved => 3,
        }
    }

    /// The variant of the low two bits of `b`.
    pub fn from_bits(b: u8) -> (r: SampleIsDependedOn)
        ensures
            r == Self::spec_from_bits(b & 3),
    {
        match b & 3 {
            1 => SampleIsDependedOn::Yes,
            2 => SampleIsDependedOn::No,
            3 => SampleIsDependedOn::Reserved,
            _ => SampleIsDependedOn::Unknown,
        }
    }

    /// Reading back the bits of a variant gives the variant.
    pub proof fn lemma_bits_roundtrip(self)
        ensures
            Self::spec_from_bits(self.spec_bits()) == self,
    {
    }
}

/// sample_has_redundancy (2 bits): whether a sample is redundantly coded.
#[derive(Debug, Clone, Copy, PartialEq, Eq, Structural, Hash, Default)]
pub enum SampleHasRedundancy {
    #[default]
    Unknown,
    Redundant,
    NotRedundant,
    Reserved,
}

impl SampleHasRedundancy {
    /// The two-bit value of this variant.
    pub open spec fn spec_bits(self) -> u8 {
        match self {
            SampleHasRedundancy::Unknown => 0,
            SampleHasRedundancy::Redundant => 1,
            SampleHasRedundancy::NotRedundant => 2,
            SampleHasRedundancy::Reserved => 3,
        }
    }

    /// The variant of a two-bit value.
    pub open spec fn spec_from_bits(b: u8) -> SampleHasRedundancy {
        
        if b == 1 {
            SampleHasRedundancy::Redundant
        } else if b == 2 {
            SampleHasRedundancy::NotRedundant
        } else if b == 3 {
            SampleHasRedundancy::Reserved
        } else {
            SampleHasRedundancy::Unknown
        }
    }

    /// The two-bit value of this variant.
    pub fn to_bits(&self) -> (r: u8)
        ensures
            r == self.spec_bits(),
            r < 4,
    {
        match self {
            SampleHasRedundancy::Unknown => 0,
            SampleHasRedundancy::Redundant => 1,
            SampleHasRedundancy::NotRedundant => 2,
            SampleHasRedundancy::Reserved => 3,
        }
    }

    /// The variant of the low two bits of `b`.
    pub fn from_bits(b: u8) -> (r: SampleHasRedundancy)
        ensures
            r == Self::spec_from_bits(b & 3),
    {
        match b & 3 {
            1 => SampleHasRedundancy::Redundant,
            2 => SampleHasRedundancy::NotRedundant,
            3 => SampleHasRedundancy::Reserved,
            _ => SampleHasRedundancy::Unknown,
        }
    }

    /// Reading back the bits of a variant gives the variant.
    pub proof fn lemma_bits_roundtrip(self)
        ensures
            Self::spec_from_bits(self.spec_bits()) == self,
    {
    }
}

/// The two bits of `raw` at `shift`.
pub open spec fn bits2(raw: u32, shift: u32) -> u8 {
    ((raw >> shift) & 3) as u8
}

/// `raw` with the two bits at `shift` replaced by the low two bits of `v`.
pub open spec fn put_bits2(raw: u32, shift: u32, v: u8) -> u32 {
    (raw & !(3u32 << shift)) | (((v as u32) & 3) << shift)
}

/// The two-bit field of `raw` that starts at bit `shift`.
pub fn extract_2bit(raw: u32, shift: u32) -> (r: u8)
    requires
        shift < 32,
    ensures
        r == bits2(raw, shift),
{
    ((raw >> shift) & 0x03) as u8
}

/// `raw` with the two-bit field at bit `shift` set to the low two bits of `value`.
pub fn embed_2bit(raw: u32, shift: u32, value: u8) -> (r: u32)
    requires
        shift < 32,
    ensures
        r == put_bits2(raw, shift, value),
{
    (raw & !(0x03u32 << shift)) | (((value as u32) & 0x03) << shift)
}

/// The description of the sample flags `raw`: whether the sample is a sync
/// sample, and what it depends on when that is known.
pub open spec fn sample_flags_text(raw: u32) -> Seq<char> {
    let head = if (raw >> 16) & 1 != 1 { "[sync"@ } else { "[non-sync"@ };
    let dep = match SampleDependsOn::spec_from_bits(bits2(raw, 24)) {
        SampleDependsOn::Unknown => Seq::<char>::empty(),
        SampleDependsOn::Others => " depends=Others"@,
        SampleDependsOn::NotOthers => " depends=NotOthers"@,
        SampleDependsOn::Reserved => " depends=Reserved"@,
    };
    head + dep + "]"@
}

/// The fields of a sample flags value, in order: is_leading, sample_depends_on,
/// sample_is_depended_on, sample_has_redundancy (two bits each), the padding
/// value (three bits), the non-sync bit and the degradation priority (16 bits),
/// with the four reserved high bits first.
pub open spec fn sample_flag_fields(raw: u32) -> (u32, u8, u8, u8, u8, u32, u32, u32) {
    (
        raw >> 28,
        bits2(raw, 26),
        bits2(raw, 24),
        bits2(raw, 22),
        bits2(raw, 20),
        (raw >> 17) & 7,
        (raw >> 16) & 1,
        raw & 0xFFFF,
    )
}

/// Sample flags as defined in ISO 14496-12 §8.8.3, used by `trex`, `tfhd` and `trun`.
#[derive(Clone, Copy, PartialEq, Eq, Structural, Hash, Default, Debug)]
pub struct SampleFlags(pub u32);

impl SampleFlags {
    /// The flags with the given raw value.
    pub fn from_raw(raw: u32) -> (r: SampleFlags)
        ensures
            r.0 == raw,
    {
        SampleFlags(raw)
    }

    /// The raw value of the flags.
    pub fn to_raw(&self) -> (r: u32)
        ensures
            r == self.0,
    {
        self.0
    }

    /// The flags of a sync sample (a keyframe): depends on no other sample.
    pub fn sync() -> (r: SampleFlags)
        ensures
            r.0 == 0x0200_0000,
            bits2(r.0, 24) == SampleDependsOn::NotOthers.spec_bits(),
            (r.0 >> 16) & 1 == 0,
    {
        let r = SampleFlags(0).with_sample_depends_on(SampleDependsOn::NotOthers).with_sample_is_non_sync(false);
        assert(put_bits2(0, 24, 2) == 0x0200_0000) by (bit_vector);
        assert((0x0200_0000u32 & !(1u32 << 16)) | (0u32 << 16) == 0x0200_0000) by (bit_vector);
        assert(((0x0200_0000u32 >> 24) & 3) as u8 == 2 && (0x0200_0000u32 >> 16) & 1 == 0) by (bit_vector);
        r
    }

    /// The flags of a non-sync sample: depends on others.
    pub fn non_sync() -> (r: SampleFlags)
        ensures
            r.0 == 0x0101_0000,
            bits2(r.0, 24) == SampleDependsOn::Others.spec_bits(),
            (r.0 >> 16) & 1 == 1,
    {
        let r = SampleFlags(0).with_sample_depends_on(SampleDependsOn::Others).with_sample_is_non_sync(true);
        assert(put_bits2(0, 24, 1) == 0x0100_0000) by (bit_vector);
        assert((0x0100_0000u32 & !(1u32 << 16)) | (1u32 << 16) == 0x0101_0000) by (bit_vector);
        assert(((0x0101_0000u32 >> 24) & 3) as u8 == 1 && (0x0101_0000u32 >> 16) & 1 == 1) by (bit_vector);
        r
    }

    /// The is_leading field (bits 26-27).
    pub fn is_leading(&self) -> (r: IsLeading)
        ensures
            r == IsLeading::spec_from_bits(bits2(self.0, 26)),
    {
        let raw = self.0;
        let b = extract_2bit(raw, 26);
        assert(b & 3 == b) by (bit_vector)
            requires
                b == ((raw >> 26u32) & 3) as u8,
        ;
        IsLeading::from_bits(b)
    }

    /// These flags with the is_leading field set; every other field is kept.
    pub fn with_is_leading(self, v: IsLeading) -> (r: SampleFlags)
        ensures
            r.0 == put_bits2(self.0, 26, v.spec_bits()),
            bits2(r.0, 26) == v.spec_bits(),
            ({
                let (a, _, b, c, d, e, f, g) = sample_flag_fields(self.0);
                let (a2, _, b2, c2, d2, e2, f2, g2) = sample_flag_fields(r.0);
                a == a2 && b == b2 && c == c2 && d == d2 && e == e2 && f == f2 && g == g2
            }),
    {
        let raw = self.0;
        let b = v.to_bits();
        let r = embed_2bit(raw, 26, b);
        assert(bits2(r, 26) == b && r >> 28 == raw >> 28 && bits2(r, 24) == bits2(raw, 24) && bits2(r, 22) == bits2(raw, 22) && bits2(r, 20) == bits2(raw, 20) && (r >> 17) & 7 == (raw >> 17) & 7 && (r >> 16) & 1 == (raw >> 16) & 1 && r & 0xFFFF == raw & 0xFFFF) by (bit_vector)
            requires
                b < 4,
                r == put_bits2(raw, 26, b),
        ;
        SampleFlags(r)
    }

    /// The sample_depends_on field (bits 24-25).
    pub fn sample_depends_on(&self) -> (r: SampleDependsOn)
        ensures
            r == SampleDependsOn::spec_from_bits(bits2(self.0, 24)),
    {
        let raw = self.0;
        let b = extract_2bit(raw, 24);
        assert(b & 3 == b) by (bit_vector)
            requires
                b == ((raw >> 24u32) & 3) as u8,
        ;
        SampleDependsOn::from_bits(b)
    }

    /// These flags with the sample_depends_on field set; every other field is kept.
    pub fn with_sample_depends_on(self, v: SampleDependsOn) -> (r: SampleFlags)
        ensures
            r.0 == put_bits2(self.0, 24, v.spec_bits()),
            bits2(r.0, 24) == v.spec_bits(),
            ({
                let (a, b, _, c, d, e, f, g) = sample_flag_fields(self.0);
                let (a2, b2, _, c2, d2, e2, f2, g2) = sample_flag_fields(r.0);
                a == a2 && b == b2 && c == c2 && d == d2 && e == e2 && f == f2 && g == g2
            }),
    {
        let raw = self.0;
        let b = v.to_bits();
        let r = embed_2bit(raw, 24, b);
        assert(bits2(r, 24) == b && r >> 28 == raw >> 28 && bits2(r, 26) == bits2(raw, 26) && bits2(r, 22) == bits2(raw, 22) && bits2(r, 20) == bits2(raw, 20) && (r >> 17) & 7 == (raw >> 17) & 7 && (r >> 16) & 1 == (raw >> 16) & 1 && r & 0xFFFF == raw & 0xFFFF) by (bit_vector)
            requires
                b < 4,
                r == put_bits2(raw, 24, b),
        ;
        SampleFlags(r)
    }

    /// The sample_is_depended_on field (bits 22-23).
    pub fn sample_is_depended_on(&self) -> (r: SampleIsDependedOn)
        ensures
            r == SampleIsDependedOn::spec_from_bits(bits2(self.0, 22)),
    {
        let raw = self.0;
        let b = extract_2bit(raw, 22);
        assert(b & 3 == b) by (bit_vector)
            requires
                b == ((raw >> 22u32) & 3) as u8,
        ;
        SampleIsDependedOn::from_bits(b)
    }

    /// These flags with the sample_is_depended_on field set; every other field is kept.
    pub fn with_sample_is_depended_on(self, v: SampleIsDependedOn) -> (r: SampleFlags)
        ensures
            r.0 == put_bits2(self.0, 22, v.spec_bits()),
            bits2(r.0, 22) == v.spec_bits(),
            ({
                let (a, b, c, _, d, e, f, g) = sample_flag_fields(self.0);
                let (a2, b2, c2, _, d2, e2, f2, g2) = sample_flag_fields(r.0);
                a == a2 && b == b2 && c == c2 && d == d2 && e == e2 && f == f2 && g == g2
            }),
    {
        let raw = self.0;
        let b = v.to_bits();
        let r = embed_2bit(raw, 22, b);
        assert(bits2(r, 22) == b && r >> 28 == raw >> 28 && bits2(r, 26) == bits2(raw, 26) && bits2(r, 24) == bits2(raw, 24) && bits2(r, 20) == bits2(raw, 20) && (r >> 17) & 7 == (raw >> 17) & 7 && (r >> 16) & 1 == (raw >> 16) & 1 && r & 0xFFFF == raw & 0xFFFF) by (bit_vector)
            requires
                b < 4,
                r == put_bits2(raw, 22, b),
        ;
        SampleFlags(r)
    }

    /// The sample_has_redundancy field (bits 20-21).
    pub fn sample_has_redundancy(&self) -> (r: SampleHasRedundancy)
        ensures
            r == SampleHasRedundancy::spec_from_bits(bits2(self.0, 20)),
    {
        let raw = self.0;
        let b = extract_2bit(raw, 20);
        assert(b & 3 == b) by (bit_vector)
            requires
                b == ((raw >> 20u32) & 3) as u8,
        ;
        SampleHasRedundancy::from_bits(b)
    }

    /// These flags with the sample_has_redundancy field set; every other field is kept.
    pub fn with_sample_has_redundancy(self, v: SampleHasRedundancy) -> (r: SampleFlags)
        ensures
            r.0 == put_bits2(self.0, 20, v.spec_bits()),
            bits2(r.0, 20) == v.spec_bits(),
            ({
                let (a, b, c, d, _, e, f, g) = sample_flag_fields(self.0);
                let (a2, b2, c2, d2, _, e2, f2, g2) = sample_flag_fields(r.0);
                a == a2 && b == b2 && c == c2 && d == d2 && e == e2 && f == f2 && g == g2
            }),
    {
        let raw = self.0;
        let b = v.to_bits();
        let r = embed_2bit(raw, 20, b);
        assert(bits2(r, 20) == b && r >> 28 == raw >> 28 && bits2(r, 26) == bits2(raw, 26) && bits2(r, 24) == bits2(raw, 24) && bits2(r, 22) == bits2(raw, 22) && (r >> 17) & 7 == (raw >> 17) & 7 && (r >> 16) & 1 == (raw >> 16) & 1 && r & 0xFFFF == raw & 0xFFFF) by (bit_vector)
            requires
                b < 4,
                r == put_bits2(raw, 20, b),
        ;
        SampleFlags(r)
    }

    /// The sample padding value (bits 17-19).
    pub fn sample_padding_value(&self) -> (r: u8)
        ensures
            r == (self.0 >> 17) & 7,
    {
        let raw = self.0;
        let v: u32 = (raw >> 17) & 0x07;
        assert(v < 8) by (bit_vector)
            requires
                v == (raw >> 17) & 7,
        ;
        v as u8
    }

    /// These flags with the padding value set to the low three bits of `v`; every
    /// other field is kept.
    pub fn with_sample_padding_value(self, v: u8) -> (r: SampleFlags)
        ensures
            r.0 == (self.0 & !(7u32 << 17)) | (((v as u32) & 7) << 17),
            (r.0 >> 17) & 7 == (v as u32) & 7,
            ({
                let (a, b, c, d, e, _, f, g) = sample_flag_fields(self.0);
                let (a2, b2, c2, d2, e2, _, f2, g2) = sample_flag_fields(r.0);
                a == a2 && b == b2 && c == c2 && d == d2 && e == e2 && f == f2 && g == g2
            }),
    {
        let raw = self.0;
        let r: u32 = (raw & !(0x07u32 << 17)) | (((v as u32) & 0x07) << 17);
        assert((r >> 17) & 7 == (v as u32) & 7 && r >> 28 == raw >> 28 && bits2(r, 26) == bits2(raw, 26) && bits2(r, 24) == bits2(raw, 24) && bits2(r, 22) == bits2(raw, 22) && bits2(r, 20) == bits2(raw, 20) && (r >> 16) & 1 == (raw >> 16) & 1 && r & 0xFFFF == raw & 0xFFFF) by (bit_vector)
            requires
                r == (raw & !(7u32 << 17)) | (((v as u32) & 7) << 17),
        ;
        SampleFlags(r)
    }

    /// Whether the sample is a non-sync sample (bit 16).
    pub fn sample_is_non_sync(&self) -> (r: bool)
        ensures
            r == ((self.0 >> 16) & 1 == 1),
    {
        (self.0 >> 16) & 0x01 == 1
    }

    /// These flags with the non-sync bit set to `v`; every other field is kept.
    pub fn with_sample_is_non_sync(self, v: bool) -> (r: SampleFlags)
        ensures
            r.0 == (self.0 & !(1u32 << 16)) | ((if v { 1u32 } else { 0u32 }) << 16),
            ((r.0 >> 16) & 1 == 1) == v,
            ({
                let (a, b, c, d, e, f, _, g) = sample_flag_fields(self.0);
                let (a2, b2, c2, d2, e2, f2, _, g2) = sample_flag_fields(r.0);
                a == a2 && b == b2 && c == c2 && d == d2 && e == e2 && f == f2 && g == g2
            }),
    {
        let raw = self.0;
        let bit: u32 = if v { 1 } else { 0 };
        let r: u32 = (raw & !(0x01u32 << 16)) | (bit << 16);
        assert(((r >> 16) & 1 == 1) == (bit == 1) && r >> 28 == raw >> 28 && bits2(r, 26) == bits2(raw, 26) && bits2(r, 24) == bits2(raw, 24) && bits2(r, 22) == bits2(raw, 22) && bits2(r, 20) == bits2(raw, 20) && (r >> 17) & 7 == (raw >> 17) & 7 && r & 0xFFFF == raw & 0xFFFF) by (bit_vector)
            requires
                bit < 2,
                r == (raw & !(1u32 << 16)) | (bit << 16),
        ;
        SampleFlags(r)
    }

    /// Whether the sample is a sync sample (a keyframe): the non-sync bit is clear.
    pub fn is_sync(self) -> (r: bool)
        ensures
            r == ((self.0 >> 16) & 1 != 1),
    {
        !self.sample_is_non_sync()
    }

    /// A short description: `[sync` or `[non-sync`, then ` depends=` and the
    /// dependency when it is known, then `]`.
    pub fn display(&self) -> (r: String)
        ensures
            r@ == sample_flags_text(self.0),
    {
        let mut s = if self.is_sync() {
            String::from_str("[sync")
        } else {
            String::from_str("[non-sync")
        };
        match self.sample_depends_on() {
            SampleDependsOn::Unknown => {},
            SampleDependsOn::Others => s.append(" depends=Others"),
            SampleDependsOn::NotOthers => s.append(" depends=NotOthers"),
            SampleDependsOn::Reserved => s.append(" depends=Reserved"),
        }
        s.append("]");
        s
    }

    /// The degradation priority (bits 0-15).
    pub fn sample_degradation_priority(self) -> (r: u16)
        ensures
            r == self.0 & 0xFFFF,
    {
        let raw = self.0;
        let v: u32 = raw & 0xFFFF;
        assert(v <= 0xFFFF) by (bit_vector)
            requires
                v == raw & 0xFFFF,
        ;
        v as u16
    }

    /// These flags with the degradation priority set to `v`; every other field is kept.
    pub fn with_sample_degradation_priority(self, v: u16) -> (r: SampleFlags)
        ensures
            r.0 == (self.0 & !0xFFFFu32) | (v as u32),
            r.0 & 0xFFFF == v,
            ({
                let (a, b, c, d, e, f, g, _) = sample_flag_fields(self.0);
                let (a2, b2, c2, d2, e2, f2, g2, _) = sample_flag_fields(r.0);
                a == a2 && b == b2 && c == c2 && d == d2 && e == e2 && f == f2 && g == g2
            }),
    {
        let raw = self.0;
        let w: u32 = v as u32;
        let r: u32 = (raw & !0xFFFFu32) | w;
        assert(r & 0xFFFF == w && r >> 28 == raw >> 28 && bits2(r, 26) == bits2(raw, 26) && bits2(r, 24) == bits2(raw, 24) && bits2(r, 22) == bits2(raw, 22) && bits2(r, 20) == bits2(raw, 20) && (r >> 17) & 7 == (raw >> 17) & 7 && (r >> 16) & 1 == (raw >> 16) & 1) by (bit_vector)
            requires
                w <= 0xFFFF,
                r == (raw & !0xFFFFu32) | w,
        ;
        SampleFlags(r)
    }
}

/// Setting one of the two-bit fields of sample flags and reading it back
/// gives the value set.
pub proof fn lemma_bits2_roundtrip(raw: u32, v: u8)
    requires
        v < 4,
    ensures
        bits2(put_bits2(raw, 26, v), 26) == v,
        bits2(put_bits2(raw, 24, v), 24) == v,
        bits2(put_bits2(raw, 22, v), 22) == v,
        bits2(put_bits2(raw, 20, v), 20) == v,
{
    assert(bits2(put_bits2(raw, 26, v), 26) == v) by (bit_vector)
        requires
            v < 4,
    ;
    assert(bits2(put_bits2(raw, 24, v), 24) == v) by (bit_vector)
        requires
            v < 4,
    ;
    assert(bits2(put_bits2(raw, 22, v), 22) == v) by (bit_vector)
        requires
            v < 4,
    ;
    assert(bits2(put_bits2(raw, 20, v), 20) == v) by (bit_vector)
        requires
            v < 4,
    ;
}

} // verus!
