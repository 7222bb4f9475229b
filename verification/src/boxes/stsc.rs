//! Sample to Chunk Box (`stsc`): how samples are grouped into chunks.
use vstd::prelude::*;

use crate::bytes::{be24, be32, u24_bytes, u32_bytes, lemma_u24_bytes_of, lemma_u32_bytes_of, lemma_subrange_split, lemma_be24_in, lemma_be32_in};
use crate::codec::{BoxCodec, BoxDecode, BoxEncode, short_buffer};
use crate::cursor::{put_u8, put_u24, put_u32, lemma_splice_concat, ReadCursor};
use crate::error::{Error, ErrorKind};
use crate::flags::{BoxFlags, StscFlags};
use crate::types::BoxType;
use crate::entries::{FixedEntry, spec_entries, spec_entries_bytes, read_entries, write_entries, lemma_entries_bytes_len, lemma_entries_roundtrip, lemma_entries_reencode};

verus! {

/// An entry of the `stsc` table: a run of chunks with the same layout.
#[derive(Debug, Clone, Copy, PartialEq, Eq)]
pub struct StscEntry {
    /// Index of the first chunk of the run (1-based).
    pub first_chunk: u32,
    /// Number of samples in each chunk of the run.
    pub samples_per_chunk: u32,
    /// Index of the sample description of those samples.
    pub sample_description_index: u32,
}

impl FixedEntry for StscEntry {
    open spec fn spec_size() -> nat {
        12
    }

    open spec fn spec_parse(s: Seq<u8>) -> Self {
        StscEntry { first_chunk: be32(s, 0), samples_per_chunk: be32(s, 4), sample_description_index: be32(s, 8) }
    }

    open spec fn spec_bytes(self) -> Seq<u8> {
        u32_bytes(self.first_chunk) + u32_bytes(self.samples_per_chunk) + u32_bytes(self.sample_description_index)
    }

    fn entry_size() -> (r: usize) {
        12
    }

    fn read_entry(cur: &mut ReadCursor) -> (r: Self) {
        let first_chunk = match cur.read_u32_be() {
            Ok(x) => x,
            Err(_) => 0,
        };
        let samples_per_chunk = match cur.read_u32_be() {
            Ok(x) => x,
            Err(_) => 0,
        };
        let sample_description_index = match cur.read_u32_be() {
            Ok(x) => x,
            Err(_) => 0,
        };
        StscEntry { first_chunk, samples_per_chunk, sample_description_index }
    }

    fn write_entry(&self, buf: &mut [u8], pos: usize) -> (r: usize) {
        let ghost s0 = buf@;
        let p = match put_u32(buf, pos, self.first_chunk) {
            Ok(q) => q,
            Err(_) => pos,
        };
        let ghost mut acc = u32_bytes(self.first_chunk);
        let p = match put_u32(buf, p, self.samples_per_chunk) {
            Ok(q) => q,
            Err(_) => pos,
        };
        proof {
            lemma_splice_concat(s0, pos as int, acc, u32_bytes(self.samples_per_chunk));
            acc = acc + u32_bytes(self.samples_per_chunk);
        }
        let p = match put_u32(buf, p, self.sample_description_index) {
            Ok(q) => q,
            Err(_) => pos,
        };
        proof {
            lemma_splice_concat(s0, pos as int, acc, u32_bytes(self.sample_description_index));
            acc = acc + u32_bytes(self.sample_description_index);
        }
        p
    }

    proof fn lemma_bytes_len(e: Self) {
    }

    proof fn lemma_parse_bytes(e: Self, rest: Seq<u8>) {
        assert(e.first_chunk == be32((e.spec_bytes() + rest), 0)) by {
            assert((e.spec_bytes() + rest).subrange(0, 4) =~= u32_bytes(e.first_chunk));
            lemma_be32_in((e.spec_bytes() + rest), 0, e.first_chunk);
        }
        assert(e.samples_per_chunk == be32((e.spec_bytes() + rest), 4)) by {
            assert((e.spec_bytes() + rest).subrange(4, 8) =~= u32_bytes(e.samples_per_chunk));
            lemma_be32_in((e.spec_bytes() + rest), 4, e.samples_per_chunk);
        }
        assert(e.sample_description_index == be32((e.spec_bytes() + rest), 8)) by {
            assert((e.spec_bytes() + rest).subrange(8, 12) =~= u32_bytes(e.sample_description_index));
            lemma_be32_in((e.spec_bytes() + rest), 8, e.sample_description_index);
        }
    }

    proof fn lemma_bytes_parse(s: Seq<u8>) {
        lemma_u32_bytes_of(s, 0);
        lemma_u32_bytes_of(s, 4);
        lemma_subrange_split(s, 0, 4, 8);
        lemma_u32_bytes_of(s, 8);
        lemma_subrange_split(s, 0, 8, 12);
    }
}

impl StscEntry {
    /// The entry stored in `bytes`.
    pub fn from_bytes(bytes: &[u8; 12]) -> (r: StscEntry)
        ensures
            r == StscEntry::spec_parse(bytes@),
    {
        let mut cur = ReadCursor::new(bytes);
        assert(cur.rest() =~= bytes@);
        StscEntry::read_entry(&mut cur)
    }

    /// The bytes of this entry.
    pub fn to_bytes(&self) -> (r: [u8; 12])
        ensures
            r@ == self.spec_bytes(),
    {
        let mut b = [0u8; 12];
        let p = self.write_entry(&mut b, 0);
        assert(b@ =~= self.spec_bytes());
        b
    }
}

/// Sample to Chunk Box (`stsc`) over a byte slice.
#[derive(Debug)]
pub struct StscBoxView<'a> {
    /// Box version.
    pub version: u8,
    /// Box flags.
    pub flags: StscFlags,
    /// The number of entries.
    pub entry_count: u32,
    /// The bytes of the entries.
    pub entries: &'a [u8],
}

impl<'a> StscBoxView<'a> {
    /// The entries of the table.
    pub fn entries(&self) -> (r: Vec<StscEntry>)
        ensures
            r@ == spec_entries::<StscEntry>(self.entries@),
    {
        read_entries(self.entries)
    }

    /// An owned copy of this box.
    pub fn to_owned(&self) -> (r: StscBox)
        ensures
            r.version == self.version,
            r.flags == self.flags,
            r.entries@ == spec_entries::<StscEntry>(self.entries@),
    {
        StscBox::from(self)
    }
}

impl BoxCodec for StscBoxView<'_> {
    open spec fn spec_boxtype(&self) -> BoxType {
        BoxType::STSC
    }

    fn boxtype(&self) -> (r: BoxType) {
        BoxType::STSC
    }
}

impl<'de> BoxDecode<'de> for StscBoxView<'de> {
    open spec fn spec_accepts(bytes: Seq<u8>) -> bool {
        bytes.len() >= 8 && bytes.len() - 8 == be32(bytes, 4) * 12
    }

    open spec fn spec_decodes(bytes: Seq<u8>, v: Self) -> bool {
        &&& v.version == bytes[0]
        &&& v.flags.0 == be24(bytes, 1)
        &&& v.entry_count == be32(bytes, 4)
        &&& v.entries@ == bytes.skip(8)
    }

    fn decode(bytes: &'de [u8]) -> (r: Result<Self, Error>) {
        let mut cur = ReadCursor::new(bytes);
        let version = cur.read_u8()?;
        let flags = BoxFlags(cur.read_u24_be()?);
        let entry_count = cur.read_u32_be()?;
        let expected: u64 = (entry_count as u64) * 12;
        if (cur.remaining() as u64) != expected {
            return Err(Error::at_in_box(ErrorKind::InvalidBoxSize { reason: "Entries length does not match entry count", got: cur.remaining() as u64 }, cur.position() as u64, BoxType::STSC));
        }
        let n = cur.remaining();
        let entries = cur.take(n)?;
        assert(entries@ =~= bytes@.skip(8));
        Ok(StscBoxView { version, flags, entry_count, entries })
    }
}

/// Sample to Chunk Box (`stsc`) with its entries in a vector.
#[derive(Debug, Clone)]
pub struct StscBox {
    /// Box version.
    pub version: u8,
    /// Box flags.
    pub flags: StscFlags,
    /// The entries of the table.
    pub entries: Vec<StscEntry>,
}

impl StscBox {
    /// The owned box holding the entries of a view.
    pub fn from(view: &StscBoxView<'_>) -> (r: StscBox)
        ensures
            r.version == view.version,
            r.flags == view.flags,
            r.entries@ == spec_entries::<StscEntry>(view.entries@),
    {
        StscBox { version: view.version, flags: view.flags, entries: view.entries() }
    }
}

impl Default for StscBox {
    fn default() -> (r: StscBox)
        ensures
            r.version == 0,
            r.flags.0 == 0,
            r.entries@.len() == 0,
    {
        StscBox { version: 0, flags: BoxFlags(0), entries: Vec::new() }
    }
}

impl BoxCodec for StscBox {
    open spec fn spec_boxtype(&self) -> BoxType {
        BoxType::STSC
    }

    fn boxtype(&self) -> (r: BoxType) {
        BoxType::STSC
    }
}

impl<'de> BoxDecode<'de> for StscBox {
    open spec fn spec_accepts(bytes: Seq<u8>) -> bool {
        bytes.len() >= 8 && bytes.len() - 8 == be32(bytes, 4) * 12
    }

    open spec fn spec_decodes(bytes: Seq<u8>, v: Self) -> bool {
        &&& v.version == bytes[0]
        &&& v.flags.0 == be24(bytes, 1)
        &&& v.entries@ == spec_entries::<StscEntry>(bytes.skip(8))
    }

    fn decode(bytes: &'de [u8]) -> (r: Result<Self, Error>) {
        let view = StscBoxView::decode(bytes)?;
        Ok(StscBox::from(&view))
    }
}

impl BoxEncode for StscBox {
    open spec fn spec_encode(&self) -> Seq<u8> {
        seq![self.version] + u24_bytes(self.flags.0) + u32_bytes(self.entries@.len() as u32) + spec_entries_bytes(self.entries@)
    }

    open spec fn spec_encodable(&self) -> bool {
        self.entries@.len() <= u32::MAX && 8 + self.entries@.len() * 12 <= usize::MAX
    }

    fn encoded_len(&self) -> (r: usize) {
        proof {
            lemma_entries_bytes_len(self.entries@);
        }
        if self.entries.len() > (usize::MAX - 8) / 12 {
            usize::MAX
        } else {
            8 + self.entries.len() * 12
        }
    }

    fn encode_into(&self, bytes: &mut [u8]) -> (r: Result<usize, Error>) {
        let ghost s0 = bytes@;
        proof {
            lemma_entries_bytes_len(self.entries@);
        }
        if bytes.len() < 8 || (bytes.len() - 8) / 12 < self.entries.len() {
            if self.entries.len() > 0xFFFF_FFFF {
                return Err(Error::in_box(ErrorKind::Overflow, BoxType::STSC));
            }
            return Err(short_buffer(8, bytes.len()));
        }
        let p = put_u8(bytes, 0, self.version)?;
        let p = put_u24(bytes, p, self.flags.0)?;
        proof {
            lemma_splice_concat(s0, 0, seq![self.version], u24_bytes(self.flags.0));
        }
        if self.entries.len() > 0xFFFF_FFFF {
            return Err(Error::in_box(ErrorKind::Overflow, BoxType::STSC));
        }
        let p = put_u32(bytes, p, self.entries.len() as u32)?;
        proof {
            lemma_splice_concat(s0, 0, seq![self.version] + u24_bytes(self.flags.0), u32_bytes(self.entries@.len() as u32));
        }
        let q = write_entries(bytes, p, &self.entries);
        proof {
            lemma_splice_concat(s0, 0, seq![self.version] + u24_bytes(self.flags.0) + u32_bytes(self.entries@.len() as u32), spec_entries_bytes(self.entries@));
        }
        Ok(q)
    }
}

/// Decoding the encoding of a `stsc` box gives the box back.
pub proof fn lemma_stsc_roundtrip(b: StscBox)
    requires
        b.flags.0 < 0x100_0000,
        b.spec_encodable(),
    ensures
        StscBox::spec_accepts(b.spec_encode()),
        StscBox::spec_decodes(b.spec_encode(), b),
{
    let e = b.spec_encode();
    let eb = spec_entries_bytes(b.entries@);
    lemma_entries_bytes_len(b.entries@);
    lemma_entries_roundtrip(b.entries@);
    assert(e.subrange(0, 1) =~= seq![b.version]);
    assert(e[0] == e.subrange(0, 1)[0]);
    assert(e.subrange(1, 4) =~= u24_bytes(b.flags.0));
    lemma_be24_in(e, 1, b.flags.0);
    assert(e.subrange(4, 8) =~= u32_bytes(b.entries@.len() as u32)); lemma_be32_in(e, 4, b.entries@.len() as u32);
    assert(e.skip(8) =~= eb);
}

/// Encoding the box decoded from a payload gives the payload back.
pub proof fn lemma_stsc_reencode(s: Seq<u8>, b: StscBox)
    requires
        StscBox::spec_accepts(s),
        StscBox::spec_decodes(s, b),
    ensures
        b.spec_encode() == s,
{
    let t = s.skip(8);
    lemma_entries_reencode::<StscEntry>(t, be32(s, 4) as nat);
    lemma_u32_bytes_of(s, 4);
    lemma_u24_bytes_of(s, 1);
    assert(s.subrange(0, 1) =~= seq![s[0]]);
    assert(b.spec_encode() =~= s);
}

/// The layout of a `stsc` payload: what a view of `stsc` box decoded from
/// `bytes` holds, field by field, read at fixed offsets.
pub proof fn lemma_stsc_box_view_layout<'a>(bytes: Seq<u8>, v: StscBoxView<'a>)
    requires
        StscBoxView::spec_decodes(bytes, v),
    ensures
        v.version == bytes[0],
        v.flags.0 == be24(bytes, 1),
        v.entry_count == be32(bytes, 4),
        v.entries@ == bytes.skip(8),
{
}

/// The layout of a `stsc` payload: what an owned `stsc` box decoded from
/// `bytes` holds, field by field, read at fixed offsets.
pub proof fn lemma_stsc_box_layout(bytes: Seq<u8>, v: StscBox)
    requires
        StscBox::spec_decodes(bytes, v),
    ensures
        v.version == bytes[0],
        v.flags.0 == be24(bytes, 1),
        v.entries@ == spec_entries::<StscEntry>(bytes.skip(8)),
{
}

/// The layout of a table of `StscEntry` entries: entry `i`, as the box hands it
/// out, holds `first_chunk`, `samples_per_chunk`, `sample_description_index` read big-endian in that order from the 12 bytes
/// at `12 * i`; an entry is written as those fields in that order.
pub proof fn lemma_stsc_entries_layout(s: Seq<u8>, i: int, e: StscEntry)
    requires
        0 <= i,
        (i + 1) * 12 <= s.len(),
    ensures
        crate::entries::spec_entries::<StscEntry>(s).len() > i,
        crate::entries::spec_entries::<StscEntry>(s)[i].first_chunk == crate::bytes::be32(s, 12 * i + 0),
        crate::entries::spec_entries::<StscEntry>(s)[i].samples_per_chunk == crate::bytes::be32(s, 12 * i + 4),
        crate::entries::spec_entries::<StscEntry>(s)[i].sample_description_index == crate::bytes::be32(s, 12 * i + 8),
        e.spec_bytes() == u32_bytes(e.first_chunk) + u32_bytes(e.samples_per_chunk) + u32_bytes(e.sample_description_index),
{
    crate::entries::lemma_entries_index::<StscEntry>(s, i);
    assert(i * StscEntry::spec_size() == 12 * i);
    crate::bytes::lemma_be_skip(s, 12 * i, 0);
    crate::bytes::lemma_be_skip(s, 12 * i, 4);
    crate::bytes::lemma_be_skip_short(s, 12 * i, 8);
}

} // verus!
