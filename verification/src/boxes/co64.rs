//! Chunk Large Offset Box (`co64`): 64-bit file offsets of the chunks of a track.
use vstd::prelude::*;

use crate::bytes::{be24, be32, be64, u24_bytes, u32_bytes, u64_bytes, lemma_u24_bytes_of, lemma_u32_bytes_of, lemma_u64_bytes_of, lemma_be24_in, lemma_be32_in, lemma_be64_in};
use crate::codec::{BoxCodec, BoxDecode, BoxEncode, short_buffer};
use crate::cursor::{put_u8, put_u24, put_u32, put_u64, lemma_splice_concat, ReadCursor};
use crate::error::{Error, ErrorKind};
use crate::flags::{BoxFlags, Co64Flags};
use crate::types::BoxType;
use crate::entries::{FixedEntry, spec_entries, spec_entries_bytes, read_entries, write_entries, lemma_entries_bytes_len, lemma_entries_roundtrip, lemma_entries_reencode};

verus! {

/// An entry of the `co64` table: the 64-bit offset of a chunk.
#[derive(Debug, Clone, Copy, PartialEq, Eq)]
pub struct Co64Entry {
    /// File offset of the chunk.
    pub chunk_offset: u64,
}

impl FixedEntry for Co64Entry {
    open spec fn spec_size() -> nat {
        8
    }

    open spec fn spec_parse(s: Seq<u8>) -> Self {
        Co64Entry { chunk_offset: be64(s, 0) }
    }

    open spec fn spec_bytes(self) -> Seq<u8> {
        u64_bytes(self.chunk_offset)
    }

    fn entry_size() -> (r: usize) {
        8
    }

    fn read_entry(cur: &mut ReadCursor) -> (r: Self) {
        let chunk_offset = match cur.read_u64_be() {
            Ok(x) => x,
            Err(_) => 0,
        };
        Co64Entry { chunk_offset }
    }

    fn write_entry(&self, buf: &mut [u8], pos: usize) -> (r: usize) {
        let ghost s0 = buf@;
        let p = match put_u64(buf, pos, self.chunk_offset) {
            Ok(q) => q,
            Err(_) => pos,
        };
        let ghost mut acc = u64_bytes(self.chunk_offset);
        p
    }

    proof fn lemma_bytes_len(e: Self) {
    }

    proof fn lemma_parse_bytes(e: Self, rest: Seq<u8>) {
        assert(e.chunk_offset == be64((e.spec_bytes() + rest), 0)) by {
            assert((e.spec_bytes() + rest).subrange(0, 8) =~= u64_bytes(e.chunk_offset));
            lemma_be64_in((e.spec_bytes() + rest), 0, e.chunk_offset);
        }
    }

    proof fn lemma_bytes_parse(s: Seq<u8>) {
        lemma_u64_bytes_of(s, 0);
    }
}

impl Co64Entry {
    /// The entry stored in `bytes`.
    pub fn from_bytes(bytes: &[u8; 8]) -> (r: Co64Entry)
        ensures
            r == Co64Entry::spec_parse(bytes@),
    {
        let mut cur = ReadCursor::new(bytes);
        assert(cur.rest() =~= bytes@);
        Co64Entry::read_entry(&mut cur)
    }

    /// The bytes of this entry.
    pub fn to_bytes(&self) -> (r: [u8; 8])
        ensures
            r@ == self.spec_bytes(),
    {
        let mut b = [0u8; 8];
        let p = self.write_entry(&mut b, 0);
        assert(b@ =~= self.spec_bytes());
        b
    }
}

/// Chunk Large Offset Box (`co64`) over a byte slice.
#[derive(Debug)]
pub struct Co64BoxView<'a> {
    /// Box version.
    pub version: u8,
    /// Box flags.
    pub flags: Co64Flags,
    /// The number of entries.
    pub entry_count: u32,
    /// The bytes of the entries.
    pub entries: &'a [u8],
}

impl<'a> Co64BoxView<'a> {
    /// The entries of the table.
    pub fn entries(&self) -> (r: Vec<Co64Entry>)
        ensures
            r@ == spec_entries::<Co64Entry>(self.entries@),
    {
        read_entries(self.entries)
    }

    /// An owned copy of this box.
    pub fn to_owned(&self) -> (r: Co64Box)
        ensures
            r.version == self.version,
            r.flags == self.flags,
            r.entries@ == spec_entries::<Co64Entry>(self.entries@),
    {
        Co64Box::from(self)
    }
}

impl BoxCodec for Co64BoxView<'_> {
    open spec fn spec_boxtype(&self) -> BoxType {
        BoxType::CO64
    }

    fn boxtype(&self) -> (r: BoxType) {
        BoxType::CO64
    }
}

impl<'de> BoxDecode<'de> for Co64BoxView<'de> {
    open spec fn spec_accepts(bytes: Seq<u8>) -> bool {
        bytes.len() >= 8 && bytes.len() - 8 == be32(bytes, 4) * 8
    }

    open spec fn spec_decodes(bytes: Seq<u8>, v: Self) -> bool {
        &&& v.version == bytes[0]
        &&& v.flags.0 == be24(bytes, 1)
        &&& v.entry_count == be32(bytes, 4)
        &&& v.entries@ == bytes.skip(8)
    }

    fn decode(bytes: &'de [u8]) -> (r: Result<Self, Error>) {
        let mut cur = ReadCursor::new(bytes);
        let version = cur.read_u8()?;
        let flags = BoxFlags(cur.read_u24_be()?);
        let entry_count = cur.read_u32_be()?;
        let expected: u64 = (entry_count as u64) * 8;
        if (cur.remaining() as u64) != expected {
            return Err(Error::in_box(ErrorKind::InvalidBoxField { field: "entries", reason: "size does not match entry_count" }, BoxType::CO64));
        }
        let n = cur.remaining();
        let entries = cur.take(n)?;
        assert(entries@ =~= bytes@.skip(8));
        Ok(Co64BoxView { version, flags, entry_count, entries })
    }
}

/// Chunk Large Offset Box (`co64`) with its entries in a vector.
#[derive(Debug, Clone)]
pub struct Co64Box {
    /// Box version.
    pub version: u8,
    /// Box flags.
    pub flags: Co64Flags,
    /// The entries of the table.
    pub entries: Vec<Co64Entry>,
}

impl Co64Box {
    /// The owned box holding the entries of a view.
    pub fn from(view: &Co64BoxView<'_>) -> (r: Co64Box)
        ensures
            r.version == view.version,
            r.flags == view.flags,
            r.entries@ == spec_entries::<Co64Entry>(view.entries@),
    {
        Co64Box { version: view.version, flags: view.flags, entries: view.entries() }
    }
}

impl Default for Co64Box {
    fn default() -> (r: Co64Box)
        ensures
            r.version == 0,
            r.flags.0 == 0,
            r.entries@.len() == 0,
    {
        Co64Box { version: 0, flags: BoxFlags(0), entries: Vec::new() }
    }
}

impl BoxCodec for Co64Box {
    open spec fn spec_boxtype(&self) -> BoxType {
        BoxType::CO64
    }

    fn boxtype(&self) -> (r: BoxType) {
        BoxType::CO64
    }
}

impl<'de> BoxDecode<'de> for Co64Box {
    open spec fn spec_accepts(bytes: Seq<u8>) -> bool {
        bytes.len() >= 8 && bytes.len() - 8 == be32(bytes, 4) * 8
    }

    open spec fn spec_decodes(bytes: Seq<u8>, v: Self) -> bool {
        &&& v.version == bytes[0]
        &&& v.flags.0 == be24(bytes, 1)
        &&& v.entries@ == spec_entries::<Co64Entry>(bytes.skip(8))
    }

    fn decode(bytes: &'de [u8]) -> (r: Result<Self, Error>) {
        let view = Co64BoxView::decode(bytes)?;
        Ok(Co64Box::from(&view))
    }
}

impl BoxEncode for Co64Box {
    open spec fn spec_encode(&self) -> Seq<u8> {
        seq![self.version] + u24_bytes(self.flags.0) + u32_bytes(self.entries@.len() as u32) + spec_entries_bytes(self.entries@)
    }

    open spec fn spec_encodable(&self) -> bool {
        self.entries@.len() <= u32::MAX && 8 + self.entries@.len() * 8 <= usize::MAX
    }

    fn encoded_len(&self) -> (r: usize) {
        proof {
            lemma_entries_bytes_len(self.entries@);
        }
        if self.entries.len() > (usize::MAX - 8) / 8 {
            usize::MAX
        } else {
            8 + self.entries.len() * 8
        }
    }

    fn encode_into(&self, bytes: &mut [u8]) -> (r: Result<usize, Error>) {
        let ghost s0 = bytes@;
        proof {
            lemma_entries_bytes_len(self.entries@);
        }
        if bytes.len() < 8 || (bytes.len() - 8) / 8 < self.entries.len() {
            if self.entries.len() > 0xFFFF_FFFF {
                return Err(Error::in_box(ErrorKind::Overflow, BoxType::CO64));
            }
            return Err(short_buffer(8, bytes.len()));
        }
        let p = put_u8(bytes, 0, self.version)?;
        let p = put_u24(bytes, p, self.flags.0)?;
        proof {
            lemma_splice_concat(s0, 0, seq![self.version], u24_bytes(self.flags.0));
        }
        if self.entries.len() > 0xFFFF_FFFF {
            return Err(Error::in_box(ErrorKind::Overflow, BoxType::CO64));
        }
        let p = put_u32(bytes, p, self.entries.len() as u32)?;
        proof {
            lemma_splice_concat(s0, 0, seq![self.version] + u24_bytes(self.flags.0), u32_bytes(self.entries@.len() as u32));
        }
        let q = write_entries(bytes, p, &self.entries);
        proof {
            lemma_splice_concat(s0, 0, seq![self.version] + u24_bytes(self.flags.0) + u32_bytes(self.entries@.len() as u32), spec_entries_bytes(self.entries@));
        }
        Ok(q)
    }
}

/// Decoding the encoding of a `co64` box gives the box back.
pub proof fn lemma_co64_roundtrip(b: Co64Box)
    requires
        b.flags.0 < 0x100_0000,
        b.spec_encodable(),
    ensures
        Co64Box::spec_accepts(b.spec_encode()),
        Co64Box::spec_decodes(b.spec_encode(), b),
{
    let e = b.spec_encode();
    let eb = spec_entries_bytes(b.entries@);
    lemma_entries_bytes_len(b.entries@);
    lemma_entries_roundtrip(b.entries@);
    assert(e.subrange(0, 1) =~= seq![b.version]);
    assert(e[0] == e.subrange(0, 1)[0]);
    assert(e.subrange(1, 4) =~= u24_bytes(b.flags.0));
    lemma_be24_in(e, 1, b.flags.0);
    assert(e.subrange(4, 8) =~= u32_bytes(b.entries@.len() as u32)); lemma_be32_in(e, 4, b.entries@.len() as u32);
    assert(e.skip(8) =~= eb);
}

/// Encoding the box decoded from a payload gives the payload back.
pub proof fn lemma_co64_reencode(s: Seq<u8>, b: Co64Box)
    requires
        Co64Box::spec_accepts(s),
        Co64Box::spec_decodes(s, b),
    ensures
        b.spec_encode() == s,
{
    let t = s.skip(8);
    lemma_entries_reencode::<Co64Entry>(t, be32(s, 4) as nat);
    lemma_u32_bytes_of(s, 4);
    lemma_u24_bytes_of(s, 1);
    assert(s.subrange(0, 1) =~= seq![s[0]]);
    assert(b.spec_encode() =~= s);
}

/// The layout of a `co64` payload: what a view of `co64` box decoded from
/// `bytes` holds, field by field, read at fixed offsets.
pub proof fn lemma_co64_box_view_layout<'a>(bytes: Seq<u8>, v: Co64BoxView<'a>)
    requires
        Co64BoxView::spec_decodes(bytes, v),
    ensures
        v.version == bytes[0],
        v.flags.0 == be24(bytes, 1),
        v.entry_count == be32(bytes, 4),
        v.entries@ == bytes.skip(8),
{
}

/// The layout of a `co64` payload: what an owned `co64` box decoded from
/// `bytes` holds, field by field, read at fixed offsets.
pub proof fn lemma_co64_box_layout(bytes: Seq<u8>, v: Co64Box)
    requires
        Co64Box::spec_decodes(bytes, v),
    ensures
        v.version == bytes[0],
        v.flags.0 == be24(bytes, 1),
        v.entries@ == spec_entries::<Co64Entry>(bytes.skip(8)),
{
}

/// The layout of a table of `Co64Entry` entries: entry `i`, as the box hands it
/// out, holds `chunk_offset` read big-endian in that order from the 8 bytes
/// at `8 * i`; an entry is written as those fields in that order.
pub proof fn lemma_co64_entries_layout(s: Seq<u8>, i: int, e: Co64Entry)
    requires
        0 <= i,
        (i + 1) * 8 <= s.len(),
    ensures
        crate::entries::spec_entries::<Co64Entry>(s).len() > i,
        crate::entries::spec_entries::<Co64Entry>(s)[i].chunk_offset == crate::bytes::be64(s, 8 * i + 0),
        e.spec_bytes() == u64_bytes(e.chunk_offset),
{
    crate::entries::lemma_entries_index::<Co64Entry>(s, i);
    assert(i * Co64Entry::spec_size() == 8 * i);
    crate::bytes::lemma_be_skip(s, 8 * i, 0);
}

} // verus!
