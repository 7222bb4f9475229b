//! Sample Size Box (`stsz`): the size of each sample of a track, or one size
//! shared by all of them.
use vstd::prelude::*;

use crate::bytes::{be24, be32, u24_bytes, u32_bytes, lemma_u24_bytes_of, lemma_u32_bytes_of, lemma_be24_in, lemma_be32_in};
use crate::codec::{BoxCodec, BoxDecode, BoxEncode, short_buffer};
use crate::cursor::{put_u8, put_u24, put_u32, lemma_splice_concat, ReadCursor};
use crate::error::{Error, ErrorKind};
use crate::flags::{BoxFlags, StszFlags};
use crate::types::BoxType;
use crate::entries::{FixedEntry, spec_entries, spec_entries_bytes, read_entries, write_entries, lemma_entries_bytes_len, lemma_entries_roundtrip, lemma_entries_reencode};

verus! {

/// An entry of the `stsz` table: the size of one sample.
#[derive(Debug, Clone, Copy, PartialEq, Eq)]
pub struct StszEntry {
    /// Size of the sample in bytes.
    pub entry_size: u32,
}

impl FixedEntry for StszEntry {
    open spec fn spec_size() -> nat {
        4
    }

    open spec fn spec_parse(s: Seq<u8>) -> Self {
        StszEntry { entry_size: be32(s, 0) }
    }

    open spec fn spec_bytes(self) -> Seq<u8> {
        u32_bytes(self.entry_size)
    }

    fn entry_size() -> (r: usize) {
        4
    }

    fn read_entry(cur: &mut ReadCursor) -> (r: Self) {
        let entry_size = match cur.read_u32_be() {
            Ok(x) => x,
            Err(_) => 0,
        };
        StszEntry { entry_size }
    }

    fn write_entry(&self, buf: &mut [u8], pos: usize) -> (r: usize) {
        let ghost s0 = buf@;
        let p = match put_u32(buf, pos, self.entry_size) {
            Ok(q) => q,
            Err(_) => pos,
        };
        let ghost mut acc = u32_bytes(self.entry_size);
        p
    }

    proof fn lemma_bytes_len(e: Self) {
    }

    proof fn lemma_parse_bytes(e: Self, rest: Seq<u8>) {
        assert(e.entry_size == be32((e.spec_bytes() + rest), 0)) by {
            assert((e.spec_bytes() + rest).subrange(0, 4) =~= u32_bytes(e.entry_size));
            lemma_be32_in((e.spec_bytes() + rest), 0, e.entry_size);
        }
    }

    proof fn lemma_bytes_parse(s: Seq<u8>) {
        lemma_u32_bytes_of(s, 0);
    }
}

impl StszEntry {
    /// The entry stored in `bytes`.
    pub fn from_bytes(bytes: &[u8; 4]) -> (r: StszEntry)
        ensures
            r == StszEntry::spec_parse(bytes@),
    {
        let mut cur = ReadCursor::new(bytes);
        assert(cur.rest() =~= bytes@);
        StszEntry::read_entry(&mut cur)
    }

    /// The bytes of this entry.
    pub fn to_bytes(&self) -> (r: [u8; 4])
        ensures
            r@ == self.spec_bytes(),
    {
        let mut b = [0u8; 4];
        let p = self.write_entry(&mut b, 0);
        assert(b@ =~= self.spec_bytes());
        b
    }
}

/// The number of entry bytes an `stsz` payload holds for a shared size and a
/// sample count: none when the size is shared.
pub open spec fn stsz_entries_len(sample_size: u32, sample_count: u32) -> int {
    if sample_size == 0 {
        sample_count * 4
    } else {
        0
    }
}

/// Sample Size Box (`stsz`) over a byte slice.
#[derive(Debug)]
pub struct StszBoxView<'a> {
    /// Box version.
    pub version: u8,
    /// Box flags.
    pub flags: StszFlags,
    /// The size shared by all samples, or 0 when each sample has an entry.
    pub sample_size: u32,
    /// The number of samples.
    pub sample_count: u32,
    /// The bytes of the entries.
    pub entries: &'a [u8],
}

impl<'a> StszBoxView<'a> {
    /// The entries of the table.
    pub fn entries(&self) -> (r: Vec<StszEntry>)
        ensures
            r@ == spec_entries::<StszEntry>(self.entries@),
    {
        read_entries(self.entries)
    }

    /// An owned copy of this box.
    pub fn to_owned(&self) -> (r: StszBox)
        ensures
            r.version == self.version,
            r.flags == self.flags,
            r.sample_size == self.sample_size,
            r.sample_count == self.sample_count,
            r.entries@ == spec_entries::<StszEntry>(self.entries@),
    {
        StszBox::from(self)
    }
}

impl BoxCodec for StszBoxView<'_> {
    open spec fn spec_boxtype(&self) -> BoxType {
        BoxType::STSZ
    }

    fn boxtype(&self) -> (r: BoxType) {
        BoxType::STSZ
    }
}

impl<'de> BoxDecode<'de> for StszBoxView<'de> {
    open spec fn spec_accepts(bytes: Seq<u8>) -> bool {
        bytes.len() >= 12 && bytes.len() - 12 == stsz_entries_len(be32(bytes, 4), be32(bytes, 8))
    }

    open spec fn spec_decodes(bytes: Seq<u8>, v: Self) -> bool {
        &&& v.version == bytes[0]
        &&& v.flags.0 == be24(bytes, 1)
        &&& v.sample_size == be32(bytes, 4)
        &&& v.sample_count == be32(bytes, 8)
        &&& v.entries@ == bytes.skip(12)
    }

    fn decode(bytes: &'de [u8]) -> (r: Result<Self, Error>) {
        let mut cur = ReadCursor::new(bytes);
        let version = cur.read_u8()?;
        let flags = BoxFlags(cur.read_u24_be()?);
        let sample_size = cur.read_u32_be()?;
        let sample_count = cur.read_u32_be()?;
        let expected: u64 = if sample_size == 0 { (sample_count as u64) * 4 } else { 0 };
        if (cur.remaining() as u64) != expected {
            return Err(Error::at_in_box(ErrorKind::InvalidBoxSize { reason: "Entries length does not match sample count", got: cur.remaining() as u64 }, cur.position() as u64, BoxType::STSZ));
        }
        let n = cur.remaining();
        let entries = cur.take(n)?;
        assert(entries@ =~= bytes@.skip(12));
        Ok(StszBoxView { version, flags, sample_size, sample_count, entries })
    }
}

/// Sample Size Box (`stsz`) with its entries in a vector.
#[derive(Debug, Clone)]
pub struct StszBox {
    /// Box version.
    pub version: u8,
    /// Box flags.
    pub flags: StszFlags,
    /// The size shared by all samples, or 0 when each sample has an entry.
    pub sample_size: u32,
    /// The number of samples.
    pub sample_count: u32,
    /// The size of each sample, when `sample_size` is 0.
    pub entries: Vec<StszEntry>,
}

impl StszBox {
    /// The owned box holding the entries of a view.
    pub fn from(view: &StszBoxView<'_>) -> (r: StszBox)
        ensures
            r.version == view.version,
            r.flags == view.flags,
            r.sample_size == view.sample_size,
            r.sample_count == view.sample_count,
            r.entries@ == spec_entries::<StszEntry>(view.entries@),
    {
        StszBox { version: view.version, flags: view.flags, sample_size: view.sample_size, sample_count: view.sample_count, entries: view.entries() }
    }
}

impl Default for StszBox {
    fn default() -> (r: StszBox)
        ensures
            r.version == 0,
            r.flags.0 == 0,
            r.sample_size == 0,
            r.sample_count == 0,
            r.entries@.len() == 0,
    {
        StszBox { version: 0, flags: BoxFlags(0), sample_size: 0, sample_count: 0, entries: Vec::new() }
    }
}

impl BoxCodec for StszBox {
    open spec fn spec_boxtype(&self) -> BoxType {
        BoxType::STSZ
    }

    fn boxtype(&self) -> (r: BoxType) {
        BoxType::STSZ
    }
}

impl<'de> BoxDecode<'de> for StszBox {
    open spec fn spec_accepts(bytes: Seq<u8>) -> bool {
        bytes.len() >= 12 && bytes.len() - 12 == stsz_entries_len(be32(bytes, 4), be32(bytes, 8))
    }

    open spec fn spec_decodes(bytes: Seq<u8>, v: Self) -> bool {
        &&& v.version == bytes[0]
        &&& v.flags.0 == be24(bytes, 1)
        &&& v.sample_size == be32(bytes, 4)
        &&& v.sample_count == be32(bytes, 8)
        &&& v.entries@ == spec_entries::<StszEntry>(bytes.skip(12))
    }

    fn decode(bytes: &'de [u8]) -> (r: Result<Self, Error>) {
        let view = StszBoxView::decode(bytes)?;
        Ok(StszBox::from(&view))
    }
}

impl BoxEncode for StszBox {
    open spec fn spec_encode(&self) -> Seq<u8> {
        seq![self.version] + u24_bytes(self.flags.0) + u32_bytes(self.sample_size) + u32_bytes(self.sample_count) + spec_entries_bytes(self.entries@)
    }

    open spec fn spec_encodable(&self) -> bool {
        12 + self.entries@.len() * 4 <= usize::MAX
    }

    fn encoded_len(&self) -> (r: usize) {
        proof {
            lemma_entries_bytes_len(self.entries@);
        }
        if self.entries.len() > (usize::MAX - 12) / 4 {
            usize::MAX
        } else {
            12 + self.entries.len() * 4
        }
    }

    fn encode_into(&self, bytes: &mut [u8]) -> (r: Result<usize, Error>) {
        let ghost s0 = bytes@;
        proof {
            lemma_entries_bytes_len(self.entries@);
        }
        if bytes.len() < 12 || (bytes.len() - 12) / 4 < self.entries.len() {
            return Err(short_buffer(12, bytes.len()));
        }
        let p = put_u8(bytes, 0, self.version)?;
        let p = put_u24(bytes, p, self.flags.0)?;
        proof {
            lemma_splice_concat(s0, 0, seq![self.version], u24_bytes(self.flags.0));
        }
        let ghost a = seq![self.version] + u24_bytes(self.flags.0);
        let p = put_u32(bytes, p, self.sample_size)?;
        proof {
            lemma_splice_concat(s0, 0, a, u32_bytes(self.sample_size));
            a = a + u32_bytes(self.sample_size);
        }
        let p = put_u32(bytes, p, self.sample_count)?;
        proof {
            lemma_splice_concat(s0, 0, a, u32_bytes(self.sample_count));
            a = a + u32_bytes(self.sample_count);
        }
        let q = write_entries(bytes, p, &self.entries);
        proof {
            lemma_splice_concat(s0, 0, a, spec_entries_bytes(self.entries@));
        }
        Ok(q)
    }
}

/// Decoding the encoding of an `stsz` box gives the box back, when it has one
/// entry per sample without a shared size and none with one.
pub proof fn lemma_stsz_roundtrip(b: StszBox)
    requires
        b.flags.0 < 0x100_0000,
        b.spec_encodable(),
        b.sample_size == 0 ==> b.entries@.len() == b.sample_count,
        b.sample_size != 0 ==> b.entries@.len() == 0,
    ensures
        StszBox::spec_accepts(b.spec_encode()),
        StszBox::spec_decodes(b.spec_encode(), b),
{
    let e = b.spec_encode();
    lemma_entries_bytes_len(b.entries@);
    lemma_entries_roundtrip(b.entries@);
    assert(e.subrange(0, 1) =~= seq![b.version]);
    assert(e[0] == e.subrange(0, 1)[0]);
    assert(e.subrange(1, 4) =~= u24_bytes(b.flags.0));
    lemma_be24_in(e, 1, b.flags.0);
    assert(e.subrange(4, 8) =~= u32_bytes(b.sample_size));
    lemma_be32_in(e, 4, b.sample_size);
    assert(e.subrange(8, 12) =~= u32_bytes(b.sample_count));
    lemma_be32_in(e, 8, b.sample_count);
    assert(e.skip(12) =~= spec_entries_bytes(b.entries@));
}

/// Encoding the box decoded from a payload gives the payload back.
pub proof fn lemma_stsz_reencode(s: Seq<u8>, b: StszBox)
    requires
        StszBox::spec_accepts(s),
        StszBox::spec_decodes(s, b),
    ensures
        b.spec_encode() == s,
{
    let t = s.skip(12);
    lemma_entries_reencode::<StszEntry>(t, (t.len() / 4) as nat);
    lemma_u32_bytes_of(s, 4);
    lemma_u32_bytes_of(s, 8);
    lemma_u24_bytes_of(s, 1);
    assert(s.subrange(0, 1) =~= seq![s[0]]);
    assert(b.spec_encode() =~= s);
}

/// The layout of a `stsz` payload: what a view of `stsz` box decoded from
/// `bytes` holds, field by field, read at fixed offsets.
pub proof fn lemma_stsz_box_view_layout<'a>(bytes: Seq<u8>, v: StszBoxView<'a>)
    requires
        StszBoxView::spec_decodes(bytes, v),
    ensures
        v.version == bytes[0],
        v.flags.0 == be24(bytes, 1),
        v.sample_size == be32(bytes, 4),
        v.sample_count == be32(bytes, 8),
        v.entries@ == bytes.skip(12),
{
}

/// The layout of a `stsz` payload: what an owned `stsz` box decoded from
/// `bytes` holds, field by field, read at fixed offsets.
pub proof fn lemma_stsz_box_layout(bytes: Seq<u8>, v: StszBox)
    requires
        StszBox::spec_decodes(bytes, v),
    ensures
        v.version == bytes[0],
        v.flags.0 == be24(bytes, 1),
        v.sample_size == be32(bytes, 4),
        v.sample_count == be32(bytes, 8),
        v.entries@ == spec_entries::<StszEntry>(bytes.skip(12)),
{
}

/// The layout of a table of `StszEntry` entries: entry `i`, as the box hands it
/// out, holds `entry_size` read big-endian in that order from the 4 bytes
/// at `4 * i`; an entry is written as those fields in that order.
pub proof fn lemma_stsz_entries_layout(s: Seq<u8>, i: int, e: StszEntry)
    requires
        0 <= i,
        (i + 1) * 4 <= s.len(),
    ensures
        crate::entries::spec_entries::<StszEntry>(s).len() > i,
        crate::entries::spec_entries::<StszEntry>(s)[i].entry_size == crate::bytes::be32(s, 4 * i + 0),
        e.spec_bytes() == u32_bytes(e.entry_size),
{
    crate::entries::lemma_entries_index::<StszEntry>(s, i);
    assert(i * StszEntry::spec_size() == 4 * i);
    crate::bytes::lemma_be_skip_short(s, 4 * i, 0);
}

} // verus!
