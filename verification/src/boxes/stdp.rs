//! Degradation Priority Box (`stdp`): a degradation priority for each sample.
use vstd::prelude::*;

use crate::bytes::{be16, be24, u16_bytes, u24_bytes, lemma_u16_bytes_of, lemma_u24_bytes_of, lemma_be16_in, lemma_be24_in};
use crate::codec::{BoxCodec, BoxDecode, BoxEncode, short_buffer};
use crate::cursor::{put_u8, put_u16, put_u24, lemma_splice_concat, ReadCursor};
use crate::error::{Error, ErrorKind};
use crate::flags::{BoxFlags, StdpFlags};
use crate::types::BoxType;
use crate::entries::{FixedEntry, spec_entries, spec_entries_bytes, read_entries, write_entries, lemma_entries_bytes_len, lemma_entries_roundtrip, lemma_entries_reencode};

verus! {

/// An entry of the `stdp` table: the degradation priority of one sample.
#[derive(Debug, Clone, Copy, PartialEq, Eq)]
pub struct StdpEntry {
    /// The degradation priority of the sample (higher = more important).
    pub priority: u16,
}

impl FixedEntry for StdpEntry {
    open spec fn spec_size() -> nat {
        2
    }

    open spec fn spec_parse(s: Seq<u8>) -> Self {
        StdpEntry { priority: be16(s, 0) }
    }

    open spec fn spec_bytes(self) -> Seq<u8> {
        u16_bytes(self.priority)
    }

    fn entry_size() -> (r: usize) {
        2
    }

    fn read_entry(cur: &mut ReadCursor) -> (r: Self) {
        let priority = match cur.read_u16_be() {
            Ok(x) => x,
            Err(_) => 0,
        };
        StdpEntry { priority }
    }

    fn write_entry(&self, buf: &mut [u8], pos: usize) -> (r: usize) {
        let ghost s0 = buf@;
        let p = match put_u16(buf, pos, self.priority) {
            Ok(q) => q,
            Err(_) => pos,
        };
        let ghost mut acc = u16_bytes(self.priority);
        p
    }

    proof fn lemma_bytes_len(e: Self) {
    }

    proof fn lemma_parse_bytes(e: Self, rest: Seq<u8>) {
        assert(e.priority == be16((e.spec_bytes() + rest), 0)) by {
            assert((e.spec_bytes() + rest).subrange(0, 2) =~= u16_bytes(e.priority));
            lemma_be16_in((e.spec_bytes() + rest), 0, e.priority);
        }
    }

    proof fn lemma_bytes_parse(s: Seq<u8>) {
        lemma_u16_bytes_of(s, 0);
    }
}

impl StdpEntry {
    /// The entry stored in `bytes`.
    pub fn from_bytes(bytes: &[u8; 2]) -> (r: StdpEntry)
        ensures
            r == StdpEntry::spec_parse(bytes@),
    {
        let mut cur = ReadCursor::new(bytes);
        assert(cur.rest() =~= bytes@);
        StdpEntry::read_entry(&mut cur)
    }

    /// The bytes of this entry.
    pub fn to_bytes(&self) -> (r: [u8; 2])
        ensures
            r@ == self.spec_bytes(),
    {
        let mut b = [0u8; 2];
        let p = self.write_entry(&mut b, 0);
        assert(b@ =~= self.spec_bytes());
        b
    }
}

/// Degradation Priority Box (`stdp`) over a byte slice.
#[derive(Debug)]
pub struct StdpBoxView<'a> {
    /// Box version.
    pub version: u8,
    /// Box flags.
    pub flags: StdpFlags,
    /// The bytes of the entries.
    pub entries: &'a [u8],
}

impl<'a> StdpBoxView<'a> {
    /// The entries of the table.
    pub fn entries(&self) -> (r: Vec<StdpEntry>)
        ensures
            r@ == spec_entries::<StdpEntry>(self.entries@),
    {
        read_entries(self.entries)
    }

    /// An owned copy of this box.
    pub fn to_owned(&self) -> (r: StdpBox)
        ensures
            r.version == self.version,
            r.flags == self.flags,
            r.entries@ == spec_entries::<StdpEntry>(self.entries@),
    {
        StdpBox::from(self)
    }
}

impl BoxCodec for StdpBoxView<'_> {
    open spec fn spec_boxtype(&self) -> BoxType {
        BoxType::STDP
    }

    fn boxtype(&self) -> (r: BoxType) {
        BoxType::STDP
    }
}

impl<'de> BoxDecode<'de> for StdpBoxView<'de> {
    open spec fn spec_accepts(bytes: Seq<u8>) -> bool {
        bytes.len() >= 4 && (bytes.len() - 4) % 2 == 0
    }

    open spec fn spec_decodes(bytes: Seq<u8>, v: Self) -> bool {
        &&& v.version == bytes[0]
        &&& v.flags.0 == be24(bytes, 1)
        &&& v.entries@ == bytes.skip(4)
    }

    fn decode(bytes: &'de [u8]) -> (r: Result<Self, Error>) {
        let mut cur = ReadCursor::new(bytes);
        let version = cur.read_u8()?;
        let flags = BoxFlags(cur.read_u24_be()?);
        
        if cur.remaining() % 2 != 0 {
            return Err(Error::at_in_box(ErrorKind::InvalidBoxSize { reason: "STDP entries length is not a multiple of entry size", got: cur.remaining() as u64 }, cur.position() as u64, BoxType::STDP));
        }
        let n = cur.remaining();
        let entries = cur.take(n)?;
        assert(entries@ =~= bytes@.skip(4));
        Ok(StdpBoxView { version, flags, entries })
    }
}

/// Degradation Priority Box (`stdp`) with its entries in a vector.
#[derive(Debug, Clone)]
pub struct StdpBox {
    /// Box version.
    pub version: u8,
    /// Box flags.
    pub flags: StdpFlags,
    /// The entries of the table.
    pub entries: Vec<StdpEntry>,
}

impl StdpBox {
    /// The owned box holding the entries of a view.
    pub fn from(view: &StdpBoxView<'_>) -> (r: StdpBox)
        ensures
            r.version == view.version,
            r.flags == view.flags,
            r.entries@ == spec_entries::<StdpEntry>(view.entries@),
    {
        StdpBox { version: view.version, flags: view.flags, entries: view.entries() }
    }
}

impl Default for StdpBox {
    fn default() -> (r: StdpBox)
        ensures
            r.version == 0,
            r.flags.0 == 0,
            r.entries@.len() == 0,
    {
        StdpBox { version: 0, flags: BoxFlags(0), entries: Vec::new() }
    }
}

impl BoxCodec for StdpBox {
    open spec fn spec_boxtype(&self) -> BoxType {
        BoxType::STDP
    }

    fn boxtype(&self) -> (r: BoxType) {
        BoxType::STDP
    }
}

impl<'de> BoxDecode<'de> for StdpBox {
    open spec fn spec_accepts(bytes: Seq<u8>) -> bool {
        bytes.len() >= 4 && (bytes.len() - 4) % 2 == 0
    }

    open spec fn spec_decodes(bytes: Seq<u8>, v: Self) -> bool {
        &&& v.version == bytes[0]
        &&& v.flags.0 == be24(bytes, 1)
        &&& v.entries@ == spec_entries::<StdpEntry>(bytes.skip(4))
    }

    fn decode(bytes: &'de [u8]) -> (r: Result<Self, Error>) {
        let view = StdpBoxView::decode(bytes)?;
        Ok(StdpBox::from(&view))
    }
}

impl BoxEncode for StdpBox {
    open spec fn spec_encode(&self) -> Seq<u8> {
        seq![self.version] + u24_bytes(self.flags.0) + spec_entries_bytes(self.entries@)
    }

    open spec fn spec_encodable(&self) -> bool {
        4 + self.entries@.len() * 2 <= usize::MAX
    }

    fn encoded_len(&self) -> (r: usize) {
        proof {
            lemma_entries_bytes_len(self.entries@);
        }
        if self.entries.len() > (usize::MAX - 4) / 2 {
            usize::MAX
        } else {
            4 + self.entries.len() * 2
        }
    }

    fn encode_into(&self, bytes: &mut [u8]) -> (r: Result<usize, Error>) {
        let ghost s0 = bytes@;
        proof {
            lemma_entries_bytes_len(self.entries@);
        }
        if bytes.len() < 4 || (bytes.len() - 4) / 2 < self.entries.len() {
            if self.entries.len() > 0xFFFF_FFFF {
                return Err(Error::in_box(ErrorKind::Overflow, BoxType::STDP));
            }
            return Err(short_buffer(4, bytes.len()));
        }
        let p = put_u8(bytes, 0, self.version)?;
        let p = put_u24(bytes, p, self.flags.0)?;
        proof {
            lemma_splice_concat(s0, 0, seq![self.version], u24_bytes(self.flags.0));
        }
        
        let q = write_entries(bytes, p, &self.entries);
        proof {
            lemma_splice_concat(s0, 0, seq![self.version] + u24_bytes(self.flags.0), spec_entries_bytes(self.entries@));
        }
        Ok(q)
    }
}

/// Decoding the encoding of a `stdp` box gives the box back.
pub proof fn lemma_stdp_roundtrip(b: StdpBox)
    requires
        b.flags.0 < 0x100_0000,
        b.spec_encodable(),
    ensures
        StdpBox::spec_accepts(b.spec_encode()),
        StdpBox::spec_decodes(b.spec_encode(), b),
{
    let e = b.spec_encode();
    let eb = spec_entries_bytes(b.entries@);
    lemma_entries_bytes_len(b.entries@);
    lemma_entries_roundtrip(b.entries@);
    assert(e.subrange(0, 1) =~= seq![b.version]);
    assert(e[0] == e.subrange(0, 1)[0]);
    assert(e.subrange(1, 4) =~= u24_bytes(b.flags.0));
    lemma_be24_in(e, 1, b.flags.0);
    
    assert(e.skip(4) =~= eb);
}

/// Encoding the box decoded from a payload gives the payload back.
pub proof fn lemma_stdp_reencode(s: Seq<u8>, b: StdpBox)
    requires
        StdpBox::spec_accepts(s),
        StdpBox::spec_decodes(s, b),
    ensures
        b.spec_encode() == s,
{
    let t = s.skip(4);
    lemma_entries_reencode::<StdpEntry>(t, (t.len() / 2) as nat);
    
    lemma_u24_bytes_of(s, 1);
    assert(s.subrange(0, 1) =~= seq![s[0]]);
    assert(b.spec_encode() =~= s);
}

/// The layout of a `stdp` payload: what a view of `stdp` box decoded from
/// `bytes` holds, field by field, read at fixed offsets.
pub proof fn lemma_stdp_box_view_layout<'a>(bytes: Seq<u8>, v: StdpBoxView<'a>)
    requires
        StdpBoxView::spec_decodes(bytes, v),
    ensures
        v.version == bytes[0],
        v.flags.0 == be24(bytes, 1),
        v.entries@ == bytes.skip(4),
{
}

/// The layout of a `stdp` payload: what an owned `stdp` box decoded from
/// `bytes` holds, field by field, read at fixed offsets.
pub proof fn lemma_stdp_box_layout(bytes: Seq<u8>, v: StdpBox)
    requires
        StdpBox::spec_decodes(bytes, v),
    ensures
        v.version == bytes[0],
        v.flags.0 == be24(bytes, 1),
        v.entries@ == spec_entries::<StdpEntry>(bytes.skip(4)),
{
}

/// The layout of a table of `StdpEntry` entries: entry `i`, as the box hands it
/// out, holds `priority` read big-endian in that order from the 2 bytes
/// at `2 * i`; an entry is written as those fields in that order.
pub proof fn lemma_stdp_entries_layout(s: Seq<u8>, i: int, e: StdpEntry)
    requires
        0 <= i,
        (i + 1) * 2 <= s.len(),
    ensures
        crate::entries::spec_entries::<StdpEntry>(s).len() > i,
        crate::entries::spec_entries::<StdpEntry>(s)[i].priority == crate::bytes::be16(s, 2 * i + 0),
        e.spec_bytes() == u16_bytes(e.priority),
{
    crate::entries::lemma_entries_index::<StdpEntry>(s, i);
    assert(i * StdpEntry::spec_size() == 2 * i);
    crate::bytes::lemma_be_skip_short(s, 2 * i, 0);
}

} // verus!
