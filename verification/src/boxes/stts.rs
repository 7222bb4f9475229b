//! Decoding Time to Sample Box (`stts`): runs of samples with equal durations.
use vstd::prelude::*;

use crate::bytes::{be24, be32, u24_bytes, u32_bytes, lemma_u24_bytes_of, lemma_u32_bytes_of, lemma_subrange_split, lemma_be24_in, lemma_be32_in};
use crate::codec::{BoxCodec, BoxDecode, BoxEncode, short_buffer};
use crate::cursor::{put_u8, put_u24, put_u32, lemma_splice_concat, ReadCursor};
use crate::error::{Error, ErrorKind};
use crate::flags::{BoxFlags, SttsFlags};
use crate::types::BoxType;
use crate::entries::{FixedEntry, spec_entries, spec_entries_bytes, read_entries, write_entries, lemma_entries_bytes_len, lemma_entries_roundtrip, lemma_entries_reencode};

verus! {

/// An entry of the `stts` table: a run of samples of one duration.
#[derive(Debug, Clone, Copy, PartialEq, Eq)]
pub struct SttsEntry {
    /// Number of consecutive samples in the run.
    pub sample_count: u32,
    /// Duration of each sample of the run, in the media timescale.
    pub sample_delta: u32,
}

impl FixedEntry for SttsEntry {
    open spec fn spec_size() -> nat {
        8
    }

    open spec fn spec_parse(s: Seq<u8>) -> Self {
        SttsEntry { sample_count: be32(s, 0), sample_delta: be32(s, 4) }
    }

    open spec fn spec_bytes(self) -> Seq<u8> {
        u32_bytes(self.sample_count) + u32_bytes(self.sample_delta)
    }

    fn entry_size() -> (r: usize) {
        8
    }

    fn read_entry(cur: &mut ReadCursor) -> (r: Self) {
        let sample_count = match cur.read_u32_be() {
            Ok(x) => x,
            Err(_) => 0,
        };
        let sample_delta = match cur.read_u32_be() {
            Ok(x) => x,
            Err(_) => 0,
        };
        SttsEntry { sample_count, sample_delta }
    }

    fn write_entry(&self, buf: &mut [u8], pos: usize) -> (r: usize) {
        let ghost s0 = buf@;
        let p = match put_u32(buf, pos, self.sample_count) {
            Ok(q) => q,
            Err(_) => pos,
        };
        let ghost mut acc = u32_bytes(self.sample_count);
        let p = match put_u32(buf, p, self.sample_delta) {
            Ok(q) => q,
            Err(_) => pos,
        };
        proof {
            lemma_splice_concat(s0, pos as int, acc, u32_bytes(self.sample_delta));
            acc = acc + u32_bytes(self.sample_delta);
        }
        p
    }

    proof fn lemma_bytes_len(e: Self) {
    }

    proof fn lemma_parse_bytes(e: Self, rest: Seq<u8>) {
        assert(e.sample_count == be32((e.spec_bytes() + rest), 0)) by {
            assert((e.spec_bytes() + rest).subrange(0, 4) =~= u32_bytes(e.sample_count));
            lemma_be32_in((e.spec_bytes() + rest), 0, e.sample_count);
        }
        assert(e.sample_delta == be32((e.spec_bytes() + rest), 4)) by {
            assert((e.spec_bytes() + rest).subrange(4, 8) =~= u32_bytes(e.sample_delta));
            lemma_be32_in((e.spec_bytes() + rest), 4, e.sample_delta);
        }
    }

    proof fn lemma_bytes_parse(s: Seq<u8>) {
        lemma_u32_bytes_of(s, 0);
        lemma_u32_bytes_of(s, 4);
        lemma_subrange_split(s, 0, 4, 8);
    }
}

impl SttsEntry {
    /// The entry stored in `bytes`.
    pub fn from_bytes(bytes: &[u8; 8]) -> (r: SttsEntry)
        ensures
            r == SttsEntry::spec_parse(bytes@),
    {
        let mut cur = ReadCursor::new(bytes);
        assert(cur.rest() =~= bytes@);
        SttsEntry::read_entry(&mut cur)
    }

    /// The bytes of this entry.
    pub fn to_bytes(&self) -> (r: [u8; 8])
        ensures
            r@ == self.spec_bytes(),
    {
        let mut b = [0u8; 8];
        let p = self.write_entry(&mut b, 0);
        assert(b@ =~= self.spec_bytes());
        b
    }
}

/// Decoding Time to Sample Box (`stts`) over a byte slice.
#[derive(Debug)]
pub struct SttsBoxView<'a> {
    /// Box version.
    pub version: u8,
    /// Box flags.
    pub flags: SttsFlags,
    /// The number of entries.
    pub entry_count: u32,
    /// The bytes of the entries.
    pub entries: &'a [u8],
}

impl<'a> SttsBoxView<'a> {
    /// The entries of the table.
    pub fn entries(&self) -> (r: Vec<SttsEntry>)
        ensures
            r@ == spec_entries::<SttsEntry>(self.entries@),
    {
        read_entries(self.entries)
    }

    /// An owned copy of this box.
    pub fn to_owned(&self) -> (r: SttsBox)
        ensures
            r.version == self.version,
            r.flags == self.flags,
            r.entries@ == spec_entries::<SttsEntry>(self.entries@),
    {
        SttsBox::from(self)
    }
}

impl BoxCodec for SttsBoxView<'_> {
    open spec fn spec_boxtype(&self) -> BoxType {
        BoxType::STTS
    }

    fn boxtype(&self) -> (r: BoxType) {
        BoxType::STTS
    }
}

impl<'de> BoxDecode<'de> for SttsBoxView<'de> {
    open spec fn spec_accepts(bytes: Seq<u8>) -> bool {
        bytes.len() >= 8 && bytes.len() - 8 == be32(bytes, 4) * 8
    }

    open spec fn spec_decodes(bytes: Seq<u8>, v: Self) -> bool {
        &&& v.version == bytes[0]
        &&& v.flags.0 == be24(bytes, 1)
        &&& v.entry_count == be32(bytes, 4)
        &&& v.entries@ == bytes.skip(8)
    }

    fn decode(bytes: &'de [u8]) -> (r: Result<Self, Error>) {
        let mut cur = ReadCursor::new(bytes);
        let version = cur.read_u8()?;
        let flags = BoxFlags(cur.read_u24_be()?);
        let entry_count = cur.read_u32_be()?;
        let expected: u64 = (entry_count as u64) * 8;
        if (cur.remaining() as u64) != expected {
            return Err(Error::at_in_box(ErrorKind::InvalidBoxSize { reason: "Entries length does not match entry count", got: cur.remaining() as u64 }, cur.position() as u64, BoxType::STTS));
        }
        let n = cur.remaining();
        let entries = cur.take(n)?;
        assert(entries@ =~= bytes@.skip(8));
        Ok(SttsBoxView { version, flags, entry_count, entries })
    }
}

/// Decoding Time to Sample Box (`stts`) with its entries in a vector.
#[derive(Debug, Clone)]
pub struct SttsBox {
    /// Box version.
    pub version: u8,
    /// Box flags.
    pub flags: SttsFlags,
    /// The entries of the table.
    pub entries: Vec<SttsEntry>,
}

impl SttsBox {
    /// The owned box holding the entries of a view.
    pub fn from(view: &SttsBoxView<'_>) -> (r: SttsBox)
        ensures
            r.version == view.version,
            r.flags == view.flags,
            r.entries@ == spec_entries::<SttsEntry>(view.entries@),
    {
        SttsBox { version: view.version, flags: view.flags, entries: view.entries() }
    }
}

impl Default for SttsBox {
    fn default() -> (r: SttsBox)
        ensures
            r.version == 0,
            r.flags.0 == 0,
            r.entries@.len() == 0,
    {
        SttsBox { version: 0, flags: BoxFlags(0), entries: Vec::new() }
    }
}

impl BoxCodec for SttsBox {
    open spec fn spec_boxtype(&self) -> BoxType {
        BoxType::STTS
    }

    fn boxtype(&self) -> (r: BoxType) {
        BoxType::STTS
    }
}

impl<'de> BoxDecode<'de> for SttsBox {
    open spec fn spec_accepts(bytes: Seq<u8>) -> bool {
        bytes.len() >= 8 && bytes.len() - 8 == be32(bytes, 4) * 8
    }

    open spec fn spec_decodes(bytes: Seq<u8>, v: Self) -> bool {
        &&& v.version == bytes[0]
        &&& v.flags.0 == be24(bytes, 1)
        &&& v.entries@ == spec_entries::<SttsEntry>(bytes.skip(8))
    }

    fn decode(bytes: &'de [u8]) -> (r: Result<Self, Error>) {
        let view = SttsBoxView::decode(bytes)?;
        Ok(SttsBox::from(&view))
    }
}

impl BoxEncode for SttsBox {
    open spec fn spec_encode(&self) -> Seq<u8> {
        seq![self.version] + u24_bytes(self.flags.0) + u32_bytes(self.entries@.len() as u32) + spec_entries_bytes(self.entries@)
    }

    open spec fn spec_encodable(&self) -> bool {
        self.entries@.len() <= u32::MAX && 8 + self.entries@.len() * 8 <= usize::MAX
    }

    fn encoded_len(&self) -> (r: usize) {
        proof {
            lemma_entries_bytes_len(self.entries@);
        }
        if self.entries.len() > (usize::MAX - 8) / 8 {
            usize::MAX
        } else {
            8 + self.entries.len() * 8
        }
    }

    fn encode_into(&self, bytes: &mut [u8]) -> (r: Result<usize, Error>) {
        let ghost s0 = bytes@;
        proof {
            lemma_entries_bytes_len(self.entries@);
        }
        if bytes.len() < 8 || (bytes.len() - 8) / 8 < self.entries.len() {
            if self.entries.len() > 0xFFFF_FFFF {
                return Err(Error::in_box(ErrorKind::Overflow, BoxType::STTS));
            }
            return Err(short_buffer(8, bytes.len()));
        }
        let p = put_u8(bytes, 0, self.version)?;
        let p = put_u24(bytes, p, self.flags.0)?;
        proof {
            lemma_splice_concat(s0, 0, seq![self.version], u24_bytes(self.flags.0));
        }
        if self.entries.len() > 0xFFFF_FFFF {
            return Err(Error::in_box(ErrorKind::Overflow, BoxType::STTS));
        }
        let p = put_u32(bytes, p, self.entries.len() as u32)?;
        proof {
            lemma_splice_concat(s0, 0, seq![self.version] + u24_bytes(self.flags.0), u32_bytes(self.entries@.len() as u32));
        }
        let q = write_entries(bytes, p, &self.entries);
        proof {
            lemma_splice_concat(s0, 0, seq![self.version] + u24_bytes(self.flags.0) + u32_bytes(self.entries@.len() as u32), spec_entries_bytes(self.entries@));
        }
        Ok(q)
    }
}

/// Decoding the encoding of a `stts` box gives the box back.
pub proof fn lemma_stts_roundtrip(b: SttsBox)
    requires
        b.flags.0 < 0x100_0000,
        b.spec_encodable(),
    ensures
        SttsBox::spec_accepts(b.spec_encode()),
        SttsBox::spec_decodes(b.spec_encode(), b),
{
    let e = b.spec_encode();
    let eb = spec_entries_bytes(b.entries@);
    lemma_entries_bytes_len(b.entries@);
    lemma_entries_roundtrip(b.entries@);
    assert(e.subrange(0, 1) =~= seq![b.version]);
    assert(e[0] == e.subrange(0, 1)[0]);
    assert(e.subrange(1, 4) =~= u24_bytes(b.flags.0));
    lemma_be24_in(e, 1, b.flags.0);
    assert(e.subrange(4, 8) =~= u32_bytes(b.entries@.len() as u32)); lemma_be32_in(e, 4, b.entries@.len() as u32);
    assert(e.skip(8) =~= eb);
}

/// Encoding the box decoded from a payload gives the payload back.
pub proof fn lemma_stts_reencode(s: Seq<u8>, b: SttsBox)
    requires
        SttsBox::spec_accepts(s),
        SttsBox::spec_decodes(s, b),
    ensures
        b.spec_encode() == s,
{
    let t = s.skip(8);
    lemma_entries_reencode::<SttsEntry>(t, be32(s, 4) as nat);
    lemma_u32_bytes_of(s, 4);
    lemma_u24_bytes_of(s, 1);
    assert(s.subrange(0, 1) =~= seq![s[0]]);
    assert(b.spec_encode() =~= s);
}

/// The layout of a `stts` payload: what a view of `stts` box decoded from
/// `bytes` holds, field by field, read at fixed offsets.
pub proof fn lemma_stts_box_view_layout<'a>(bytes: Seq<u8>, v: SttsBoxView<'a>)
    requires
        SttsBoxView::spec_decodes(bytes, v),
    ensures
        v.version == bytes[0],
        v.flags.0 == be24(bytes, 1),
        v.entry_count == be32(bytes, 4),
        v.entries@ == bytes.skip(8),
{
}

/// The layout of a `stts` payload: what an owned `stts` box decoded from
/// `bytes` holds, field by field, read at fixed offsets.
pub proof fn lemma_stts_box_layout(bytes: Seq<u8>, v: SttsBox)
    requires
        SttsBox::spec_decodes(bytes, v),
    ensures
        v.version == bytes[0],
        v.flags.0 == be24(bytes, 1),
        v.entries@ == spec_entries::<SttsEntry>(bytes.skip(8)),
{
}

/// The layout of a table of `SttsEntry` entries: entry `i`, as the box hands it
/// out, holds `sample_count`, `sample_delta` read big-endian in that order from the 8 bytes
/// at `8 * i`; an entry is written as those fields in that order.
pub proof fn lemma_stts_entries_layout(s: Seq<u8>, i: int, e: SttsEntry)
    requires
        0 <= i,
        (i + 1) * 8 <= s.len(),
    ensures
        crate::entries::spec_entries::<SttsEntry>(s).len() > i,
        crate::entries::spec_entries::<SttsEntry>(s)[i].sample_count == crate::bytes::be32(s, 8 * i + 0),
        crate::entries::spec_entries::<SttsEntry>(s)[i].sample_delta == crate::bytes::be32(s, 8 * i + 4),
        e.spec_bytes() == u32_bytes(e.sample_count) + u32_bytes(e.sample_delta),
{
    crate::entries::lemma_entries_index::<SttsEntry>(s, i);
    assert(i * SttsEntry::spec_size() == 8 * i);
    crate::bytes::lemma_be_skip(s, 8 * i, 0);
    crate::bytes::lemma_be_skip_short(s, 8 * i, 4);
}

} // verus!
