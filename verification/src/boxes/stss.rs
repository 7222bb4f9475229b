//! Sync Sample Box (`stss`): the sync samples (random access points) of a track.
use vstd::prelude::*;

use crate::bytes::{be24, be32, u24_bytes, u32_bytes, lemma_u24_bytes_of, lemma_u32_bytes_of, lemma_be24_in, lemma_be32_in};
use crate::codec::{BoxCodec, BoxDecode, BoxEncode, short_buffer};
use crate::cursor::{put_u8, put_u24, put_u32, lemma_splice_concat, ReadCursor};
use crate::error::{Error, ErrorKind};
use crate::flags::{BoxFlags, StssFlags};
use crate::types::BoxType;
use crate::entries::{FixedEntry, spec_entries, spec_entries_bytes, read_entries, write_entries, lemma_entries_bytes_len, lemma_entries_roundtrip, lemma_entries_reencode};

verus! {

/// An entry of the `stss` table: the 1-based number of a sync sample.
#[derive(Debug, Clone, Copy, PartialEq, Eq)]
pub struct StssEntry {
    /// The sample number of a sync sample.
    pub sample_number: u32,
}

impl FixedEntry for StssEntry {
    open spec fn spec_size() -> nat {
        4
    }

    open spec fn spec_parse(s: Seq<u8>) -> Self {
        StssEntry { sample_number: be32(s, 0) }
    }

    open spec fn spec_bytes(self) -> Seq<u8> {
        u32_bytes(self.sample_number)
    }

    fn entry_size() -> (r: usize) {
        4
    }

    fn read_entry(cur: &mut ReadCursor) -> (r: Self) {
        let sample_number = match cur.read_u32_be() {
            Ok(x) => x,
            Err(_) => 0,
        };
        StssEntry { sample_number }
    }

    fn write_entry(&self, buf: &mut [u8], pos: usize) -> (r: usize) {
        let ghost s0 = buf@;
        let p = match put_u32(buf, pos, self.sample_number) {
            Ok(q) => q,
            Err(_) => pos,
        };
        let ghost mut acc = u32_bytes(self.sample_number);
        p
    }

    proof fn lemma_bytes_len(e: Self) {
    }

    proof fn lemma_parse_bytes(e: Self, rest: Seq<u8>) {
        assert(e.sample_number == be32((e.spec_bytes() + rest), 0)) by {
            assert((e.spec_bytes() + rest).subrange(0, 4) =~= u32_bytes(e.sample_number));
            lemma_be32_in((e.spec_bytes() + rest), 0, e.sample_number);
        }
    }

    proof fn lemma_bytes_parse(s: Seq<u8>) {
        lemma_u32_bytes_of(s, 0);
    }
}

impl StssEntry {
    /// The entry stored in `bytes`.
    pub fn from_bytes(bytes: &[u8; 4]) -> (r: StssEntry)
        ensures
            r == StssEntry::spec_parse(bytes@),
    {
        let mut cur = ReadCursor::new(bytes);
        assert(cur.rest() =~= bytes@);
        StssEntry::read_entry(&mut cur)
    }

    /// The bytes of this entry.
    pub fn to_bytes(&self) -> (r: [u8; 4])
        ensures
            r@ == self.spec_bytes(),
    {
        let mut b = [0u8; 4];
        let p = self.write_entry(&mut b, 0);
        assert(b@ =~= self.spec_bytes());
        b
    }
}

/// Sync Sample Box (`stss`) over a byte slice.
#[derive(Debug)]
pub struct StssBoxView<'a> {
    /// Box version.
    pub version: u8,
    /// Box flags.
    pub flags: StssFlags,
    /// The number of entries.
    pub entry_count: u32,
    /// The bytes of the entries.
    pub entries: &'a [u8],
}

impl<'a> StssBoxView<'a> {
    /// The entries of the table.
    pub fn entries(&self) -> (r: Vec<StssEntry>)
        ensures
            r@ == spec_entries::<StssEntry>(self.entries@),
    {
        read_entries(self.entries)
    }

    /// An owned copy of this box.
    pub fn to_owned(&self) -> (r: StssBox)
        ensures
            r.version == self.version,
            r.flags == self.flags,
            r.entries@ == spec_entries::<StssEntry>(self.entries@),
    {
        StssBox::from(self)
    }
}

impl BoxCodec for StssBoxView<'_> {
    open spec fn spec_boxtype(&self) -> BoxType {
        BoxType::STSS
    }

    fn boxtype(&self) -> (r: BoxType) {
        BoxType::STSS
    }
}

impl<'de> BoxDecode<'de> for StssBoxView<'de> {
    open spec fn spec_accepts(bytes: Seq<u8>) -> bool {
        bytes.len() >= 8 && bytes.len() - 8 == be32(bytes, 4) * 4
    }

    open spec fn spec_decodes(bytes: Seq<u8>, v: Self) -> bool {
        &&& v.version == bytes[0]
        &&& v.flags.0 == be24(bytes, 1)
        &&& v.entry_count == be32(bytes, 4)
        &&& v.entries@ == bytes.skip(8)
    }

    fn decode(bytes: &'de [u8]) -> (r: Result<Self, Error>) {
        let mut cur = ReadCursor::new(bytes);
        let version = cur.read_u8()?;
        let flags = BoxFlags(cur.read_u24_be()?);
        let entry_count = cur.read_u32_be()?;
        let expected: u64 = (entry_count as u64) * 4;
        if (cur.remaining() as u64) != expected {
            return Err(Error::at_in_box(ErrorKind::InvalidBoxSize { reason: "Entries length does not match entry count", got: cur.remaining() as u64 }, cur.position() as u64, BoxType::STSS));
        }
        let n = cur.remaining();
        let entries = cur.take(n)?;
        assert(entries@ =~= bytes@.skip(8));
        Ok(StssBoxView { version, flags, entry_count, entries })
    }
}

/// Sync Sample Box (`stss`) with its entries in a vector.
#[derive(Debug, Clone)]
pub struct StssBox {
    /// Box version.
    pub version: u8,
    /// Box flags.
    pub flags: StssFlags,
    /// The entries of the table.
    pub entries: Vec<StssEntry>,
}

impl StssBox {
    /// The owned box holding the entries of a view.
    pub fn from(view: &StssBoxView<'_>) -> (r: StssBox)
        ensures
            r.version == view.version,
            r.flags == view.flags,
            r.entries@ == spec_entries::<StssEntry>(view.entries@),
    {
        StssBox { version: view.version, flags: view.flags, entries: view.entries() }
    }
}

impl Default for StssBox {
    fn default() -> (r: StssBox)
        ensures
            r.version == 0,
            r.flags.0 == 0,
            r.entries@.len() == 0,
    {
        StssBox { version: 0, flags: BoxFlags(0), entries: Vec::new() }
    }
}

impl BoxCodec for StssBox {
    open spec fn spec_boxtype(&self) -> BoxType {
        BoxType::STSS
    }

    fn boxtype(&self) -> (r: BoxType) {
        BoxType::STSS
    }
}

impl<'de> BoxDecode<'de> for StssBox {
    open spec fn spec_accepts(bytes: Seq<u8>) -> bool {
        bytes.len() >= 8 && bytes.len() - 8 == be32(bytes, 4) * 4
    }

    open spec fn spec_decodes(bytes: Seq<u8>, v: Self) -> bool {
        &&& v.version == bytes[0]
        &&& v.flags.0 == be24(bytes, 1)
        &&& v.entries@ == spec_entries::<StssEntry>(bytes.skip(8))
    }

    fn decode(bytes: &'de [u8]) -> (r: Result<Self, Error>) {
        let view = StssBoxView::decode(bytes)?;
        Ok(StssBox::from(&view))
    }
}

impl BoxEncode for StssBox {
    open spec fn spec_encode(&self) -> Seq<u8> {
        seq![self.version] + u24_bytes(self.flags.0) + u32_bytes(self.entries@.len() as u32) + spec_entries_bytes(self.entries@)
    }

    open spec fn spec_encodable(&self) -> bool {
        self.entries@.len() <= u32::MAX && 8 + self.entries@.len() * 4 <= usize::MAX
    }

    fn encoded_len(&self) -> (r: usize) {
        proof {
            lemma_entries_bytes_len(self.entries@);
        }
        if self.entries.len() > (usize::MAX - 8) / 4 {
            usize::MAX
        } else {
            8 + self.entries.len() * 4
        }
    }

    fn encode_into(&self, bytes: &mut [u8]) -> (r: Result<usize, Error>) {
        let ghost s0 = bytes@;
        proof {
            lemma_entries_bytes_len(self.entries@);
        }
        if bytes.len() < 8 || (bytes.len() - 8) / 4 < self.entries.len() {
            if self.entries.len() > 0xFFFF_FFFF {
                return Err(Error::in_box(ErrorKind::Overflow, BoxType::STSS));
            }
            return Err(short_buffer(8, bytes.len()));
        }
        let p = put_u8(bytes, 0, self.version)?;
        let p = put_u24(bytes, p, self.flags.0)?;
        proof {
            lemma_splice_concat(s0, 0, seq![self.version], u24_bytes(self.flags.0));
        }
        if self.entries.len() > 0xFFFF_FFFF {
            return Err(Error::in_box(ErrorKind::Overflow, BoxType::STSS));
        }
        let p = put_u32(bytes, p, self.entries.len() as u32)?;
        proof {
            lemma_splice_concat(s0, 0, seq![self.version] + u24_bytes(self.flags.0), u32_bytes(self.entries@.len() as u32));
        }
        let q = write_entries(bytes, p, &self.entries);
        proof {
            lemma_splice_concat(s0, 0, seq![self.version] + u24_bytes(self.flags.0) + u32_bytes(self.entries@.len() as u32), spec_entries_bytes(self.entries@));
        }
        Ok(q)
    }
}

/// Decoding the encoding of a `stss` box gives the box back.
pub proof fn lemma_stss_roundtrip(b: StssBox)
    requires
        b.flags.0 < 0x100_0000,
        b.spec_encodable(),
    ensures
        StssBox::spec_accepts(b.spec_encode()),
        StssBox::spec_decodes(b.spec_encode(), b),
{
    let e = b.spec_encode();
    let eb = spec_entries_bytes(b.entries@);
    lemma_entries_bytes_len(b.entries@);
    lemma_entries_roundtrip(b.entries@);
    assert(e.subrange(0, 1) =~= seq![b.version]);
    assert(e[0] == e.subrange(0, 1)[0]);
    assert(e.subrange(1, 4) =~= u24_bytes(b.flags.0));
    lemma_be24_in(e, 1, b.flags.0);
    assert(e.subrange(4, 8) =~= u32_bytes(b.entries@.len() as u32)); lemma_be32_in(e, 4, b.entries@.len() as u32);
    assert(e.skip(8) =~= eb);
}

/// Encoding the box decoded from a payload gives the payload back.
pub proof fn lemma_stss_reencode(s: Seq<u8>, b: StssBox)
    requires
        StssBox::spec_accepts(s),
        StssBox::spec_decodes(s, b),
    ensures
        b.spec_encode() == s,
{
    let t = s.skip(8);
    lemma_entries_reencode::<StssEntry>(t, be32(s, 4) as nat);
    lemma_u32_bytes_of(s, 4);
    lemma_u24_bytes_of(s, 1);
    assert(s.subrange(0, 1) =~= seq![s[0]]);
    assert(b.spec_encode() =~= s);
}

/// The layout of a `stss` payload: what a view of `stss` box decoded from
/// `bytes` holds, field by field, read at fixed offsets.
pub proof fn lemma_stss_box_view_layout<'a>(bytes: Seq<u8>, v: StssBoxView<'a>)
    requires
        StssBoxView::spec_decodes(bytes, v),
    ensures
        v.version == bytes[0],
        v.flags.0 == be24(bytes, 1),
        v.entry_count == be32(bytes, 4),
        v.entries@ == bytes.skip(8),
{
}

/// The layout of a `stss` payload: what an owned `stss` box decoded from
/// `bytes` holds, field by field, read at fixed offsets.
pub proof fn lemma_stss_box_layout(bytes: Seq<u8>, v: StssBox)
    requires
        StssBox::spec_decodes(bytes, v),
    ensures
        v.version == bytes[0],
        v.flags.0 == be24(bytes, 1),
        v.entries@ == spec_entries::<StssEntry>(bytes.skip(8)),
{
}

/// The layout of a table of `StssEntry` entries: entry `i`, as the box hands it
/// out, holds `sample_number` read big-endian in that order from the 4 bytes
/// at `4 * i`; an entry is written as those fields in that order.
pub proof fn lemma_stss_entries_layout(s: Seq<u8>, i: int, e: StssEntry)
    requires
        0 <= i,
        (i + 1) * 4 <= s.len(),
    ensures
        crate::entries::spec_entries::<StssEntry>(s).len() > i,
        crate::entries::spec_entries::<StssEntry>(s)[i].sample_number == crate::bytes::be32(s, 4 * i + 0),
        e.spec_bytes() == u32_bytes(e.sample_number),
{
    crate::entries::lemma_entries_index::<StssEntry>(s, i);
    assert(i * StssEntry::spec_size() == 4 * i);
    crate::bytes::lemma_be_skip_short(s, 4 * i, 0);
}

} // verus!
