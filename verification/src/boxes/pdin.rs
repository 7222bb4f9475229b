//! Progressive Download Information Box (`pdin`): pairs of download rate and initial delay.
use vstd::prelude::*;

use crate::bytes::{be24, be32, u24_bytes, u32_bytes, lemma_u24_bytes_of, lemma_u32_bytes_of, lemma_subrange_split, lemma_be24_in, lemma_be32_in};
use crate::codec::{BoxCodec, BoxDecode, BoxEncode, short_buffer};
use crate::cursor::{put_u8, put_u24, put_u32, lemma_splice_concat, ReadCursor};
use crate::error::{Error, ErrorKind};
use crate::flags::{BoxFlags, PdinFlags};
use crate::types::BoxType;
use crate::entries::{FixedEntry, spec_entries, spec_entries_bytes, read_entries, write_entries, lemma_entries_bytes_len, lemma_entries_roundtrip, lemma_entries_reencode};

verus! {

/// An entry of the `pdin` table: a download rate and the delay it needs.
#[derive(Debug, Clone, Copy, PartialEq, Eq)]
pub struct PdinEntry {
    /// The download rate in bytes per second.
    pub rate: u32,
    /// The initial playback delay in milliseconds at this rate.
    pub initial_delay: u32,
}

impl FixedEntry for PdinEntry {
    open spec fn spec_size() -> nat {
        8
    }

    open spec fn spec_parse(s: Seq<u8>) -> Self {
        PdinEntry { rate: be32(s, 0), initial_delay: be32(s, 4) }
    }

    open spec fn spec_bytes(self) -> Seq<u8> {
        u32_bytes(self.rate) + u32_bytes(self.initial_delay)
    }

    fn entry_size() -> (r: usize) {
        8
    }

    fn read_entry(cur: &mut ReadCursor) -> (r: Self) {
        let rate = match cur.read_u32_be() {
            Ok(x) => x,
            Err(_) => 0,
        };
        let initial_delay = match cur.read_u32_be() {
            Ok(x) => x,
            Err(_) => 0,
        };
        PdinEntry { rate, initial_delay }
    }

    fn write_entry(&self, buf: &mut [u8], pos: usize) -> (r: usize) {
        let ghost s0 = buf@;
        let p = match put_u32(buf, pos, self.rate) {
            Ok(q) => q,
            Err(_) => pos,
        };
        let ghost mut acc = u32_bytes(self.rate);
        let p = match put_u32(buf, p, self.initial_delay) {
            Ok(q) => q,
            Err(_) => pos,
        };
        proof {
            lemma_splice_concat(s0, pos as int, acc, u32_bytes(self.initial_delay));
            acc = acc + u32_bytes(self.initial_delay);
        }
        p
    }

    proof fn lemma_bytes_len(e: Self) {
    }

    proof fn lemma_parse_bytes(e: Self, rest: Seq<u8>) {
        assert(e.rate == be32((e.spec_bytes() + rest), 0)) by {
            assert((e.spec_bytes() + rest).subrange(0, 4) =~= u32_bytes(e.rate));
            lemma_be32_in((e.spec_bytes() + rest), 0, e.rate);
        }
        assert(e.initial_delay == be32((e.spec_bytes() + rest), 4)) by {
            assert((e.spec_bytes() + rest).subrange(4, 8) =~= u32_bytes(e.initial_delay));
            lemma_be32_in((e.spec_bytes() + rest), 4, e.initial_delay);
        }
    }

    proof fn lemma_bytes_parse(s: Seq<u8>) {
        lemma_u32_bytes_of(s, 0);
        lemma_u32_bytes_of(s, 4);
        lemma_subrange_split(s, 0, 4, 8);
    }
}

impl PdinEntry {
    /// The entry stored in `bytes`.
    pub fn from_bytes(bytes: &[u8; 8]) -> (r: PdinEntry)
        ensures
            r == PdinEntry::spec_parse(bytes@),
    {
        let mut cur = ReadCursor::new(bytes);
        assert(cur.rest() =~= bytes@);
        PdinEntry::read_entry(&mut cur)
    }

    /// The bytes of this entry.
    pub fn to_bytes(&self) -> (r: [u8; 8])
        ensures
            r@ == self.spec_bytes(),
    {
        let mut b = [0u8; 8];
        let p = self.write_entry(&mut b, 0);
        assert(b@ =~= self.spec_bytes());
        b
    }
}

/// Progressive Download Information Box (`pdin`) over a byte slice.
#[derive(Debug)]
pub struct PdinBoxView<'a> {
    /// Box version.
    pub version: u8,
    /// Box flags.
    pub flags: PdinFlags,
    /// The bytes of the entries.
    pub entries: &'a [u8],
}

impl<'a> PdinBoxView<'a> {
    /// The entries of the table.
    pub fn entries(&self) -> (r: Vec<PdinEntry>)
        ensures
            r@ == spec_entries::<PdinEntry>(self.entries@),
    {
        read_entries(self.entries)
    }

    /// An owned copy of this box.
    pub fn to_owned(&self) -> (r: PdinBox)
        ensures
            r.version == self.version,
            r.flags == self.flags,
            r.entries@ == spec_entries::<PdinEntry>(self.entries@),
    {
        PdinBox::from(self)
    }
}

impl BoxCodec for PdinBoxView<'_> {
    open spec fn spec_boxtype(&self) -> BoxType {
        BoxType::PDIN
    }

    fn boxtype(&self) -> (r: BoxType) {
        BoxType::PDIN
    }
}

impl<'de> BoxDecode<'de> for PdinBoxView<'de> {
    open spec fn spec_accepts(bytes: Seq<u8>) -> bool {
        bytes.len() >= 4 && (bytes.len() - 4) % 8 == 0
    }

    open spec fn spec_decodes(bytes: Seq<u8>, v: Self) -> bool {
        &&& v.version == bytes[0]
        &&& v.flags.0 == be24(bytes, 1)
        &&& v.entries@ == bytes.skip(4)
    }

    fn decode(bytes: &'de [u8]) -> (r: Result<Self, Error>) {
        let mut cur = ReadCursor::new(bytes);
        let version = cur.read_u8()?;
        let flags = BoxFlags(cur.read_u24_be()?);
        
        if cur.remaining() % 8 != 0 {
            return Err(Error::at_in_box(ErrorKind::InvalidBoxSize { reason: "PDIN entries length is not a multiple of entry size", got: cur.remaining() as u64 }, cur.position() as u64, BoxType::PDIN));
        }
        let n = cur.remaining();
        let entries = cur.take(n)?;
        assert(entries@ =~= bytes@.skip(4));
        Ok(PdinBoxView { version, flags, entries })
    }
}

/// Progressive Download Information Box (`pdin`) with its entries in a vector.
#[derive(Debug, Clone)]
pub struct PdinBox {
    /// Box version.
    pub version: u8,
    /// Box flags.
    pub flags: PdinFlags,
    /// The entries of the table.
    pub entries: Vec<PdinEntry>,
}

impl PdinBox {
    /// The owned box holding the entries of a view.
    pub fn from(view: &PdinBoxView<'_>) -> (r: PdinBox)
        ensures
            r.version == view.version,
            r.flags == view.flags,
            r.entries@ == spec_entries::<PdinEntry>(view.entries@),
    {
        PdinBox { version: view.version, flags: view.flags, entries: view.entries() }
    }
}

impl Default for PdinBox {
    fn default() -> (r: PdinBox)
        ensures
            r.version == 0,
            r.flags.0 == 0,
            r.entries@.len() == 0,
    {
        PdinBox { version: 0, flags: BoxFlags(0), entries: Vec::new() }
    }
}

impl BoxCodec for PdinBox {
    open spec fn spec_boxtype(&self) -> BoxType {
        BoxType::PDIN
    }

    fn boxtype(&self) -> (r: BoxType) {
        BoxType::PDIN
    }
}

impl<'de> BoxDecode<'de> for PdinBox {
    open spec fn spec_accepts(bytes: Seq<u8>) -> bool {
        bytes.len() >= 4 && (bytes.len() - 4) % 8 == 0
    }

    open spec fn spec_decodes(bytes: Seq<u8>, v: Self) -> bool {
        &&& v.version == bytes[0]
        &&& v.flags.0 == be24(bytes, 1)
        &&& v.entries@ == spec_entries::<PdinEntry>(bytes.skip(4))
    }

    fn decode(bytes: &'de [u8]) -> (r: Result<Self, Error>) {
        let view = PdinBoxView::decode(bytes)?;
        Ok(PdinBox::from(&view))
    }
}

impl BoxEncode for PdinBox {
    open spec fn spec_encode(&self) -> Seq<u8> {
        seq![self.version] + u24_bytes(self.flags.0) + spec_entries_bytes(self.entries@)
    }

    open spec fn spec_encodable(&self) -> bool {
        4 + self.entries@.len() * 8 <= usize::MAX
    }

    fn encoded_len(&self) -> (r: usize) {
        proof {
            lemma_entries_bytes_len(self.entries@);
        }
        if self.entries.len() > (usize::MAX - 4) / 8 {
            usize::MAX
        } else {
            4 + self.entries.len() * 8
        }
    }

    fn encode_into(&self, bytes: &mut [u8]) -> (r: Result<usize, Error>) {
        let ghost s0 = bytes@;
        proof {
            lemma_entries_bytes_len(self.entries@);
        }
        if bytes.len() < 4 || (bytes.len() - 4) / 8 < self.entries.len() {
            if self.entries.len() > 0xFFFF_FFFF {
                return Err(Error::in_box(ErrorKind::Overflow, BoxType::PDIN));
            }
            return Err(short_buffer(4, bytes.len()));
        }
        let p = put_u8(bytes, 0, self.version)?;
        let p = put_u24(bytes, p, self.flags.0)?;
        proof {
            lemma_splice_concat(s0, 0, seq![self.version], u24_bytes(self.flags.0));
        }
        
        let q = write_entries(bytes, p, &self.entries);
        proof {
            lemma_splice_concat(s0, 0, seq![self.version] + u24_bytes(self.flags.0), spec_entries_bytes(self.entries@));
        }
        Ok(q)
    }
}

/// Decoding the encoding of a `pdin` box gives the box back.
pub proof fn lemma_pdin_roundtrip(b: PdinBox)
    requires
        b.flags.0 < 0x100_0000,
        b.spec_encodable(),
    ensures
        PdinBox::spec_accepts(b.spec_encode()),
        PdinBox::spec_decodes(b.spec_encode(), b),
{
    let e = b.spec_encode();
    let eb = spec_entries_bytes(b.entries@);
    lemma_entries_bytes_len(b.entries@);
    lemma_entries_roundtrip(b.entries@);
    assert(e.subrange(0, 1) =~= seq![b.version]);
    assert(e[0] == e.subrange(0, 1)[0]);
    assert(e.subrange(1, 4) =~= u24_bytes(b.flags.0));
    lemma_be24_in(e, 1, b.flags.0);
    
    assert(e.skip(4) =~= eb);
}

/// Encoding the box decoded from a payload gives the payload back.
pub proof fn lemma_pdin_reencode(s: Seq<u8>, b: PdinBox)
    requires
        PdinBox::spec_accepts(s),
        PdinBox::spec_decodes(s, b),
    ensures
        b.spec_encode() == s,
{
    let t = s.skip(4);
    lemma_entries_reencode::<PdinEntry>(t, (t.len() / 8) as nat);
    
    lemma_u24_bytes_of(s, 1);
    assert(s.subrange(0, 1) =~= seq![s[0]]);
    assert(b.spec_encode() =~= s);
}

/// The layout of a `pdin` payload: what a view of `pdin` box decoded from
/// `bytes` holds, field by field, read at fixed offsets.
pub proof fn lemma_pdin_box_view_layout<'a>(bytes: Seq<u8>, v: PdinBoxView<'a>)
    requires
        PdinBoxView::spec_decodes(bytes, v),
    ensures
        v.version == bytes[0],
        v.flags.0 == be24(bytes, 1),
        v.entries@ == bytes.skip(4),
{
}

/// The layout of a `pdin` payload: what an owned `pdin` box decoded from
/// `bytes` holds, field by field, read at fixed offsets.
pub proof fn lemma_pdin_box_layout(bytes: Seq<u8>, v: PdinBox)
    requires
        PdinBox::spec_decodes(bytes, v),
    ensures
        v.version == bytes[0],
        v.flags.0 == be24(bytes, 1),
        v.entries@ == spec_entries::<PdinEntry>(bytes.skip(4)),
{
}

/// The layout of a table of `PdinEntry` entries: entry `i`, as the box hands it
/// out, holds `rate`, `initial_delay` read big-endian in that order from the 8 bytes
/// at `8 * i`; an entry is written as those fields in that order.
pub proof fn lemma_pdin_entries_layout(s: Seq<u8>, i: int, e: PdinEntry)
    requires
        0 <= i,
        (i + 1) * 8 <= s.len(),
    ensures
        crate::entries::spec_entries::<PdinEntry>(s).len() > i,
        crate::entries::spec_entries::<PdinEntry>(s)[i].rate == crate::bytes::be32(s, 8 * i + 0),
        crate::entries::spec_entries::<PdinEntry>(s)[i].initial_delay == crate::bytes::be32(s, 8 * i + 4),
        e.spec_bytes() == u32_bytes(e.rate) + u32_bytes(e.initial_delay),
{
    crate::entries::lemma_entries_index::<PdinEntry>(s, i);
    assert(i * PdinEntry::spec_size() == 8 * i);
    crate::bytes::lemma_be_skip(s, 8 * i, 0);
    crate::bytes::lemma_be_skip_short(s, 8 * i, 4);
}

} // verus!
