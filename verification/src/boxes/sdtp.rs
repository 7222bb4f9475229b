//! Independent and Disposable Samples Box (`sdtp`): the dependency flags of each sample.
use vstd::prelude::*;

use crate::bytes::{be24, be32, u24_bytes, u32_bytes, lemma_u24_bytes_of, lemma_u32_bytes_of, lemma_be24_in, lemma_be32_in};
use crate::codec::{BoxCodec, BoxDecode, BoxEncode, short_buffer};
use crate::cursor::{put_u8, put_u24, put_u32, lemma_splice_concat, ReadCursor};
use crate::error::{Error, ErrorKind};
use crate::flags::{BoxFlags, SdtpFlags};
use crate::types::BoxType;
use crate::boxes::common::{IsLeading, SampleDependsOn, SampleIsDependedOn, SampleHasRedundancy};
use crate::entries::{FixedEntry, spec_entries, spec_entries_bytes, read_entries, write_entries, lemma_entries_bytes_len, lemma_entries_roundtrip, lemma_entries_reencode};

verus! {

/// An entry of the `sdtp` table: the four two-bit dependency fields of one
/// sample, packed in one byte (most significant first).
#[derive(Debug, Clone, Copy, PartialEq, Eq)]
pub struct SdtpEntry {
    /// Whether the sample is a leading sample.
    pub is_leading: IsLeading,
    /// Whether the sample depends on other samples.
    pub sample_depends_on: SampleDependsOn,
    /// Whether other samples depend on this one.
    pub sample_is_depended_on: SampleIsDependedOn,
    /// Whether the sample holds redundant coding.
    pub sample_has_redundancy: SampleHasRedundancy,
}

impl SdtpEntry {
    /// The byte of this entry.
    pub open spec fn spec_byte(self) -> u8 {
        (self.is_leading.spec_bits() * 64 + self.sample_depends_on.spec_bits() * 16
            + self.sample_is_depended_on.spec_bits() * 4 + self.sample_has_redundancy.spec_bits()) as u8
    }

    /// The entry of a byte.
    pub open spec fn spec_of_byte(b: u8) -> SdtpEntry {
        SdtpEntry {
            is_leading: IsLeading::spec_from_bits(b / 64),
            sample_depends_on: SampleDependsOn::spec_from_bits((b / 16) % 4),
            sample_is_depended_on: SampleIsDependedOn::spec_from_bits((b / 4) % 4),
            sample_has_redundancy: SampleHasRedundancy::spec_from_bits(b % 4),
        }
    }

    /// The entry of a byte.
    fn of_byte(b: u8) -> (r: SdtpEntry)
        ensures
            r == Self::spec_of_byte(b),
    {
        let is_leading = match b / 64 {
            1 => IsLeading::HasDependencyBefore,
            2 => IsLeading::NotLeading,
            3 => IsLeading::NoDependencyBefore,
            _ => IsLeading::Unknown,
        };
        let sample_depends_on = match (b / 16) % 4 {
            1 => SampleDependsOn::Others,
            2 => SampleDependsOn::NotOthers,
            3 => SampleDependsOn::Reserved,
            _ => SampleDependsOn::Unknown,
        };
        let sample_is_depended_on = match (b / 4) % 4 {
            1 => SampleIsDependedOn::Yes,
            2 => SampleIsDependedOn::No,
            3 => SampleIsDependedOn::Reserved,
            _ => SampleIsDependedOn::Unknown,
        };
        let sample_has_redundancy = match b % 4 {
            1 => SampleHasRedundancy::Redundant,
            2 => SampleHasRedundancy::NotRedundant,
            3 => SampleHasRedundancy::Reserved,
            _ => SampleHasRedundancy::Unknown,
        };
        SdtpEntry { is_leading, sample_depends_on, sample_is_depended_on, sample_has_redundancy }
    }

    /// The byte of this entry.
    fn to_byte(&self) -> (r: u8)
        ensures
            r == self.spec_byte(),
    {
        let a = self.is_leading.to_bits();
        let b = self.sample_depends_on.to_bits();
        let c = self.sample_is_depended_on.to_bits();
        let d = self.sample_has_redundancy.to_bits();
        a * 64 + b * 16 + c * 4 + d
    }

    /// The entry stored in `bytes`.
    pub fn from_bytes(bytes: &[u8; 1]) -> (r: SdtpEntry)
        ensures
            r == SdtpEntry::spec_parse(bytes@),
    {
        Self::of_byte(bytes[0])
    }

    /// The bytes of this entry.
    pub fn to_bytes(&self) -> (r: [u8; 1])
        ensures
            r@ == self.spec_bytes(),
    {
        let r = [self.to_byte()];
        assert(r@ =~= self.spec_bytes());
        r
    }
}

/// Splitting a byte into its four two-bit fields and joining them again.
proof fn lemma_sdtp_byte(a: int, b: int, c: int, d: int)
    requires
        0 <= a < 4,
        0 <= b < 4,
        0 <= c < 4,
        0 <= d < 4,
    ensures
        (a * 64 + b * 16 + c * 4 + d) / 64 == a,
        ((a * 64 + b * 16 + c * 4 + d) / 16) % 4 == b,
        ((a * 64 + b * 16 + c * 4 + d) / 4) % 4 == c,
        (a * 64 + b * 16 + c * 4 + d) % 4 == d,
{
    assert((a * 64 + b * 16 + c * 4 + d) / 64 == a) by (nonlinear_arith)
        requires 0 <= a < 4, 0 <= b < 4, 0 <= c < 4, 0 <= d < 4;
    assert((a * 64 + b * 16 + c * 4 + d) / 16 == a * 4 + b) by (nonlinear_arith)
        requires 0 <= a < 4, 0 <= b < 4, 0 <= c < 4, 0 <= d < 4;
    assert((a * 4 + b) % 4 == b) by (nonlinear_arith)
        requires 0 <= a < 4, 0 <= b < 4;
    assert((a * 64 + b * 16 + c * 4 + d) / 4 == a * 16 + b * 4 + c) by (nonlinear_arith)
        requires 0 <= a < 4, 0 <= b < 4, 0 <= c < 4, 0 <= d < 4;
    assert((a * 16 + b * 4 + c) % 4 == c) by (nonlinear_arith)
        requires 0 <= a < 4, 0 <= b < 4, 0 <= c < 4;
    assert((a * 64 + b * 16 + c * 4 + d) % 4 == d) by (nonlinear_arith)
        requires 0 <= a < 4, 0 <= b < 4, 0 <= c < 4, 0 <= d < 4;
}

impl FixedEntry for SdtpEntry {
    open spec fn spec_size() -> nat {
        1
    }

    open spec fn spec_parse(s: Seq<u8>) -> Self {
        SdtpEntry::spec_of_byte(s[0])
    }

    open spec fn spec_bytes(self) -> Seq<u8> {
        seq![self.spec_byte()]
    }

    fn entry_size() -> (r: usize) {
        1
    }

    fn read_entry(cur: &mut ReadCursor) -> (r: Self) {
        let b = match cur.read_u8() {
            Ok(x) => x,
            Err(_) => 0,
        };
        Self::of_byte(b)
    }

    fn write_entry(&self, buf: &mut [u8], pos: usize) -> (r: usize) {
        match put_u8(buf, pos, self.to_byte()) {
            Ok(q) => q,
            Err(_) => pos,
        }
    }

    proof fn lemma_bytes_len(e: Self) {
    }

    proof fn lemma_parse_bytes(e: Self, rest: Seq<u8>) {
        let a = e.is_leading.spec_bits() as int;
        let b = e.sample_depends_on.spec_bits() as int;
        let c = e.sample_is_depended_on.spec_bits() as int;
        let d = e.sample_has_redundancy.spec_bits() as int;
        lemma_sdtp_byte(a, b, c, d);
        assert((e.spec_bytes() + rest)[0] == e.spec_byte());
        e.is_leading.lemma_bits_roundtrip();
        e.sample_depends_on.lemma_bits_roundtrip();
        e.sample_is_depended_on.lemma_bits_roundtrip();
        e.sample_has_redundancy.lemma_bits_roundtrip();
    }

    proof fn lemma_bytes_parse(s: Seq<u8>) {
        let x = s[0];
        let a = (x / 64) as int;
        let b = ((x / 16) % 4) as int;
        let c = ((x / 4) % 4) as int;
        let d = (x % 4) as int;
        assert(a * 64 + b * 16 + c * 4 + d == x) by (nonlinear_arith)
            requires
                a == x / 64,
                b == (x / 16) % 4,
                c == (x / 4) % 4,
                d == x % 4,
                0 <= x < 256,
        ;
        assert(Self::spec_parse(s).spec_bytes() =~= s.subrange(0, 1));
    }
}

/// Independent and Disposable Samples Box (`sdtp`) over a byte slice.
#[derive(Debug)]
pub struct SdtpBoxView<'a> {
    /// Box version.
    pub version: u8,
    /// Box flags.
    pub flags: SdtpFlags,
    /// The number of entries.
    pub entry_count: u32,
    /// The bytes of the entries.
    pub entries: &'a [u8],
}

impl<'a> SdtpBoxView<'a> {
    /// The entries of the table.
    pub fn entries(&self) -> (r: Vec<SdtpEntry>)
        ensures
            r@ == spec_entries::<SdtpEntry>(self.entries@),
    {
        read_entries(self.entries)
    }

    /// An owned copy of this box.
    pub fn to_owned(&self) -> (r: SdtpBox)
        ensures
            r.version == self.version,
            r.flags == self.flags,
            r.entries@ == spec_entries::<SdtpEntry>(self.entries@),
    {
        SdtpBox::from(self)
    }
}

impl BoxCodec for SdtpBoxView<'_> {
    open spec fn spec_boxtype(&self) -> BoxType {
        BoxType::SDTP
    }

    fn boxtype(&self) -> (r: BoxType) {
        BoxType::SDTP
    }
}

impl<'de> BoxDecode<'de> for SdtpBoxView<'de> {
    open spec fn spec_accepts(bytes: Seq<u8>) -> bool {
        bytes.len() >= 8 && bytes.len() - 8 == be32(bytes, 4) * 1
    }

    open spec fn spec_decodes(bytes: Seq<u8>, v: Self) -> bool {
        &&& v.version == bytes[0]
        &&& v.flags.0 == be24(bytes, 1)
        &&& v.entry_count == be32(bytes, 4)
        &&& v.entries@ == bytes.skip(8)
    }

    fn decode(bytes: &'de [u8]) -> (r: Result<Self, Error>) {
        let mut cur = ReadCursor::new(bytes);
        let version = cur.read_u8()?;
        let flags = BoxFlags(cur.read_u24_be()?);
        let entry_count = cur.read_u32_be()?;
        let expected: u64 = (entry_count as u64) * 1;
        if (cur.remaining() as u64) != expected {
            return Err(Error::at_in_box(ErrorKind::InvalidBoxSize { reason: "Entries length does not match entry count", got: cur.remaining() as u64 }, cur.position() as u64, BoxType::SDTP));
        }
        let n = cur.remaining();
        let entries = cur.take(n)?;
        assert(entries@ =~= bytes@.skip(8));
        Ok(SdtpBoxView { version, flags, entry_count, entries })
    }
}

/// Independent and Disposable Samples Box (`sdtp`) with its entries in a vector.
#[derive(Debug, Clone)]
pub struct SdtpBox {
    /// Box version.
    pub version: u8,
    /// Box flags.
    pub flags: SdtpFlags,
    /// The entries of the table.
    pub entries: Vec<SdtpEntry>,
}

impl SdtpBox {
    /// The owned box holding the entries of a view.
    pub fn from(view: &SdtpBoxView<'_>) -> (r: SdtpBox)
        ensures
            r.version == view.version,
            r.flags == view.flags,
            r.entries@ == spec_entries::<SdtpEntry>(view.entries@),
    {
        SdtpBox { version: view.version, flags: view.flags, entries: view.entries() }
    }
}

impl BoxCodec for SdtpBox {
    open spec fn spec_boxtype(&self) -> BoxType {
        BoxType::SDTP
    }

    fn boxtype(&self) -> (r: BoxType) {
        BoxType::SDTP
    }
}

impl<'de> BoxDecode<'de> for SdtpBox {
    open spec fn spec_accepts(bytes: Seq<u8>) -> bool {
        bytes.len() >= 8 && bytes.len() - 8 == be32(bytes, 4) * 1
    }

    open spec fn spec_decodes(bytes: Seq<u8>, v: Self) -> bool {
        &&& v.version == bytes[0]
        &&& v.flags.0 == be24(bytes, 1)
        &&& v.entries@ == spec_entries::<SdtpEntry>(bytes.skip(8))
    }

    fn decode(bytes: &'de [u8]) -> (r: Result<Self, Error>) {
        let view = SdtpBoxView::decode(bytes)?;
        Ok(SdtpBox::from(&view))
    }
}

impl BoxEncode for SdtpBox {
    open spec fn spec_encode(&self) -> Seq<u8> {
        seq![self.version] + u24_bytes(self.flags.0) + u32_bytes(self.entries@.len() as u32) + spec_entries_bytes(self.entries@)
    }

    open spec fn spec_encodable(&self) -> bool {
        self.entries@.len() <= u32::MAX && 8 + self.entries@.len() * 1 <= usize::MAX
    }

    fn encoded_len(&self) -> (r: usize) {
        proof {
            lemma_entries_bytes_len(self.entries@);
        }
        if self.entries.len() > (usize::MAX - 8) / 1 {
            usize::MAX
        } else {
            8 + self.entries.len() * 1
        }
    }

    fn encode_into(&self, bytes: &mut [u8]) -> (r: Result<usize, Error>) {
        let ghost s0 = bytes@;
        proof {
            lemma_entries_bytes_len(self.entries@);
        }
        if bytes.len() < 8 || (bytes.len() - 8) / 1 < self.entries.len() {
            if self.entries.len() > 0xFFFF_FFFF {
                return Err(Error::in_box(ErrorKind::Overflow, BoxType::SDTP));
            }
            return Err(short_buffer(8, bytes.len()));
        }
        let p = put_u8(bytes, 0, self.version)?;
        let p = put_u24(bytes, p, self.flags.0)?;
        proof {
            lemma_splice_concat(s0, 0, seq![self.version], u24_bytes(self.flags.0));
        }
        if self.entries.len() > 0xFFFF_FFFF {
            return Err(Error::in_box(ErrorKind::Overflow, BoxType::SDTP));
        }
        let p = put_u32(bytes, p, self.entries.len() as u32)?;
        proof {
            lemma_splice_concat(s0, 0, seq![self.version] + u24_bytes(self.flags.0), u32_bytes(self.entries@.len() as u32));
        }
        let q = write_entries(bytes, p, &self.entries);
        proof {
            lemma_splice_concat(s0, 0, seq![self.version] + u24_bytes(self.flags.0) + u32_bytes(self.entries@.len() as u32), spec_entries_bytes(self.entries@));
        }
        Ok(q)
    }
}

/// Decoding the encoding of a `sdtp` box gives the box back.
pub proof fn lemma_sdtp_roundtrip(b: SdtpBox)
    requires
        b.flags.0 < 0x100_0000,
        b.spec_encodable(),
    ensures
        SdtpBox::spec_accepts(b.spec_encode()),
        SdtpBox::spec_decodes(b.spec_encode(), b),
{
    let e = b.spec_encode();
    let eb = spec_entries_bytes(b.entries@);
    lemma_entries_bytes_len(b.entries@);
    lemma_entries_roundtrip(b.entries@);
    assert(e.subrange(0, 1) =~= seq![b.version]);
    assert(e[0] == e.subrange(0, 1)[0]);
    assert(e.subrange(1, 4) =~= u24_bytes(b.flags.0));
    lemma_be24_in(e, 1, b.flags.0);
    assert(e.subrange(4, 8) =~= u32_bytes(b.entries@.len() as u32)); lemma_be32_in(e, 4, b.entries@.len() as u32);
    assert(e.skip(8) =~= eb);
}

/// Encoding the box decoded from a payload gives the payload back.
pub proof fn lemma_sdtp_reencode(s: Seq<u8>, b: SdtpBox)
    requires
        SdtpBox::spec_accepts(s),
        SdtpBox::spec_decodes(s, b),
    ensures
        b.spec_encode() == s,
{
    let t = s.skip(8);
    lemma_entries_reencode::<SdtpEntry>(t, be32(s, 4) as nat);
    lemma_u32_bytes_of(s, 4);
    lemma_u24_bytes_of(s, 1);
    assert(s.subrange(0, 1) =~= seq![s[0]]);
    assert(b.spec_encode() =~= s);
}

/// The layout of a `sdtp` payload: what a view of `sdtp` box decoded from
/// `bytes` holds, field by field, read at fixed offsets.
pub proof fn lemma_sdtp_box_view_layout<'a>(bytes: Seq<u8>, v: SdtpBoxView<'a>)
    requires
        SdtpBoxView::spec_decodes(bytes, v),
    ensures
        v.version == bytes[0],
        v.flags.0 == be24(bytes, 1),
        v.entry_count == be32(bytes, 4),
        v.entries@ == bytes.skip(8),
{
}

/// The layout of a `sdtp` payload: what an owned `sdtp` box decoded from
/// `bytes` holds, field by field, read at fixed offsets.
pub proof fn lemma_sdtp_box_layout(bytes: Seq<u8>, v: SdtpBox)
    requires
        SdtpBox::spec_decodes(bytes, v),
    ensures
        v.version == bytes[0],
        v.flags.0 == be24(bytes, 1),
        v.entries@ == spec_entries::<SdtpEntry>(bytes.skip(8)),
{
}

/// The layout of a table of `sdtp` entries: entry `i` comes from byte `i`,
/// whose two-bit fields from the most significant give is_leading,
/// sample_depends_on, sample_is_depended_on and sample_has_redundancy; an
/// entry is written as that byte.
pub proof fn lemma_sdtp_entries_layout(s: Seq<u8>, i: int, e: SdtpEntry)
    requires
        0 <= i < s.len(),
    ensures
        crate::entries::spec_entries::<SdtpEntry>(s).len() > i,
        crate::entries::spec_entries::<SdtpEntry>(s)[i].is_leading.spec_bits() == s[i] / 64,
        crate::entries::spec_entries::<SdtpEntry>(s)[i].sample_depends_on.spec_bits() == (s[i] / 16) % 4,
        crate::entries::spec_entries::<SdtpEntry>(s)[i].sample_is_depended_on.spec_bits() == (s[i] / 4) % 4,
        crate::entries::spec_entries::<SdtpEntry>(s)[i].sample_has_redundancy.spec_bits() == s[i] % 4,
        e.spec_bytes() == seq![(e.is_leading.spec_bits() * 64 + e.sample_depends_on.spec_bits() * 16
            + e.sample_is_depended_on.spec_bits() * 4 + e.sample_has_redundancy.spec_bits()) as u8],
{
    crate::entries::lemma_entries_index::<SdtpEntry>(s, i);
    assert(s.skip(i * 1)[0] == s[i]);
}

} // verus!
