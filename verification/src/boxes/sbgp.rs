//! Sample to Group Box (`sbgp`): which group of a grouping type each sample
//! belongs to.
use vstd::prelude::*;

use crate::bytes::{be24, be32, u24_bytes, u32_bytes, opt_u32_bytes, lemma_subrange_split, lemma_u24_bytes_of, lemma_u32_bytes_of, lemma_be24_in, lemma_be32_in};
use crate::codec::{BoxCodec, BoxDecode, BoxEncode, short_buffer};
use crate::cursor::{put_u8, put_u24, put_u32, lemma_splice_concat, ReadCursor};
use crate::error::{Error, ErrorKind};
use crate::flags::{BoxFlags, SbgpFlags};
use crate::types::{BoxType, FourCC};
use crate::entries::{FixedEntry, spec_entries, spec_entries_bytes, read_entries, write_entries, lemma_entries_bytes_len, lemma_entries_roundtrip, lemma_entries_reencode};

verus! {

/// An entry of the `sbgp` table: a run of samples in one group.
#[derive(Debug, Clone, Copy, PartialEq, Eq)]
pub struct SbgpEntry {
    /// Number of consecutive samples in the run.
    pub sample_count: u32,
    /// Index of the group description in the matching `sgpd` box (0 = no group).
    pub group_description_index: u32,
}

impl FixedEntry for SbgpEntry {
    open spec fn spec_size() -> nat {
        8
    }

    open spec fn spec_parse(s: Seq<u8>) -> Self {
        SbgpEntry { sample_count: be32(s, 0), group_description_index: be32(s, 4) }
    }

    open spec fn spec_bytes(self) -> Seq<u8> {
        u32_bytes(self.sample_count) + u32_bytes(self.group_description_index)
    }

    fn entry_size() -> (r: usize) {
        8
    }

    fn read_entry(cur: &mut ReadCursor) -> (r: Self) {
        let sample_count = match cur.read_u32_be() {
            Ok(x) => x,
            Err(_) => 0,
        };
        let group_description_index = match cur.read_u32_be() {
            Ok(x) => x,
            Err(_) => 0,
        };
        SbgpEntry { sample_count, group_description_index }
    }

    fn write_entry(&self, buf: &mut [u8], pos: usize) -> (r: usize) {
        let ghost s0 = buf@;
        let p = match put_u32(buf, pos, self.sample_count) {
            Ok(q) => q,
            Err(_) => pos,
        };
        let ghost mut acc = u32_bytes(self.sample_count);
        let p = match put_u32(buf, p, self.group_description_index) {
            Ok(q) => q,
            Err(_) => pos,
        };
        proof {
            lemma_splice_concat(s0, pos as int, acc, u32_bytes(self.group_description_index));
            acc = acc + u32_bytes(self.group_description_index);
        }
        p
    }

    proof fn lemma_bytes_len(e: Self) {
    }

    proof fn lemma_parse_bytes(e: Self, rest: Seq<u8>) {
        assert(e.sample_count == be32((e.spec_bytes() + rest), 0)) by {
            assert((e.spec_bytes() + rest).subrange(0, 4) =~= u32_bytes(e.sample_count));
            lemma_be32_in((e.spec_bytes() + rest), 0, e.sample_count);
        }
        assert(e.group_description_index == be32((e.spec_bytes() + rest), 4)) by {
            assert((e.spec_bytes() + rest).subrange(4, 8) =~= u32_bytes(e.group_description_index));
            lemma_be32_in((e.spec_bytes() + rest), 4, e.group_description_index);
        }
    }

    proof fn lemma_bytes_parse(s: Seq<u8>) {
        lemma_u32_bytes_of(s, 0);
        lemma_u32_bytes_of(s, 4);
        lemma_subrange_split(s, 0, 4, 8);
    }
}

impl SbgpEntry {
    /// The entry stored in `bytes`.
    pub fn from_bytes(bytes: &[u8; 8]) -> (r: SbgpEntry)
        ensures
            r == SbgpEntry::spec_parse(bytes@),
    {
        let mut cur = ReadCursor::new(bytes);
        assert(cur.rest() =~= bytes@);
        SbgpEntry::read_entry(&mut cur)
    }

    /// The bytes of this entry.
    pub fn to_bytes(&self) -> (r: [u8; 8])
        ensures
            r@ == self.spec_bytes(),
    {
        let mut b = [0u8; 8];
        let p = self.write_entry(&mut b, 0);
        assert(b@ =~= self.spec_bytes());
        b
    }
}

/// The header length of an `sbgp` payload of the given version: version 1
/// adds the grouping type parameter.
pub open spec fn sbgp_header_len(version: u8) -> int {
    if version == 1 {
        16
    } else {
        12
    }
}

/// The payloads an `sbgp` box accepts: a header, then exactly `entry_count` entries.
pub open spec fn sbgp_accepts(bytes: Seq<u8>) -> bool {
    let h = sbgp_header_len(bytes[0]);
    &&& bytes.len() >= 1
    &&& bytes.len() >= h
    &&& bytes.len() - h == be32(bytes, h - 4) * 8
}

/// Sample to Group Box (`sbgp`) over a byte slice.
#[derive(Debug)]
pub struct SbgpBoxView<'a> {
    /// Box version.
    pub version: u8,
    /// Box flags.
    pub flags: SbgpFlags,
    /// The grouping type, matching an `sgpd` box.
    pub grouping_type: FourCC,
    /// A sub-type of the grouping (version 1 only).
    pub grouping_type_parameter: Option<u32>,
    /// The number of entries.
    pub entry_count: u32,
    /// The bytes of the entries.
    pub entries: &'a [u8],
}

impl<'a> SbgpBoxView<'a> {
    /// The entries of the table.
    pub fn entries(&self) -> (r: Vec<SbgpEntry>)
        ensures
            r@ == spec_entries::<SbgpEntry>(self.entries@),
    {
        read_entries(self.entries)
    }

    /// An owned copy of this box.
    pub fn to_owned(&self) -> (r: SbgpBox)
        ensures
            r.version == self.version,
            r.flags == self.flags,
            r.grouping_type == self.grouping_type,
            r.grouping_type_parameter == self.grouping_type_parameter,
            r.entries@ == spec_entries::<SbgpEntry>(self.entries@),
    {
        SbgpBox::from(self)
    }
}

impl BoxCodec for SbgpBoxView<'_> {
    open spec fn spec_boxtype(&self) -> BoxType {
        BoxType::SBGP
    }

    fn boxtype(&self) -> (r: BoxType) {
        BoxType::SBGP
    }
}

impl<'de> BoxDecode<'de> for SbgpBoxView<'de> {
    open spec fn spec_accepts(bytes: Seq<u8>) -> bool {
        sbgp_accepts(bytes)
    }

    open spec fn spec_decodes(bytes: Seq<u8>, v: Self) -> bool {
        let h = sbgp_header_len(bytes[0]);
        &&& v.version == bytes[0]
        &&& v.flags.0 == be24(bytes, 1)
        &&& v.grouping_type.0 == be32(bytes, 4)
        &&& v.grouping_type_parameter == (if bytes[0] == 1 { Some(be32(bytes, 8)) } else { None::<u32> })
        &&& v.entry_count == be32(bytes, h - 4)
        &&& v.entries@ == bytes.skip(h)
    }

    fn decode(bytes: &'de [u8]) -> (r: Result<Self, Error>) {
        let mut cur = ReadCursor::new(bytes);
        let version = cur.read_u8()?;
        let flags = BoxFlags(cur.read_u24_be()?);
        let grouping_type = cur.read_fourcc()?;
        let grouping_type_parameter = if version == 1 {
            Some(cur.read_u32_be()?)
        } else {
            None
        };
        let entry_count = cur.read_u32_be()?;
        let expected: u64 = (entry_count as u64) * 8;
        if (cur.remaining() as u64) != expected {
            return Err(Error::at_in_box(ErrorKind::InvalidBoxSize { reason: "Entries length does not match entry count", got: cur.remaining() as u64 }, cur.position() as u64, BoxType::SBGP));
        }
        let n = cur.remaining();
        let ghost h = cur.pos;
        let entries = cur.take(n)?;
        assert(entries@ =~= bytes@.skip(h as int));
        Ok(SbgpBoxView { version, flags, grouping_type, grouping_type_parameter, entry_count, entries })
    }
}

/// Sample to Group Box (`sbgp`) with its entries in a vector.
#[derive(Debug, Clone)]
pub struct SbgpBox {
    /// Box version.
    pub version: u8,
    /// Box flags.
    pub flags: SbgpFlags,
    /// The grouping type, matching an `sgpd` box.
    pub grouping_type: FourCC,
    /// A sub-type of the grouping (written in version 1 only, where it is required).
    pub grouping_type_parameter: Option<u32>,
    /// The entries of the table.
    pub entries: Vec<SbgpEntry>,
}

impl Default for SbgpBox {
    fn default() -> (r: SbgpBox)
        ensures
            r.version == 0,
            r.flags.0 == 0,
            r.grouping_type.0 == 0,
            r.grouping_type_parameter is None,
            r.entries@.len() == 0,
    {
        SbgpBox { version: 0, flags: BoxFlags(0), grouping_type: FourCC(0), grouping_type_parameter: None, entries: Vec::new() }
    }
}

impl SbgpBox {
    /// The owned box holding the entries of a view.
    pub fn from(view: &SbgpBoxView<'_>) -> (r: SbgpBox)
        ensures
            r.version == view.version,
            r.flags == view.flags,
            r.grouping_type == view.grouping_type,
            r.grouping_type_parameter == view.grouping_type_parameter,
            r.entries@ == spec_entries::<SbgpEntry>(view.entries@),
    {
        SbgpBox {
            version: view.version,
            flags: view.flags,
            grouping_type: view.grouping_type,
            grouping_type_parameter: view.grouping_type_parameter,
            entries: view.entries(),
        }
    }

    /// The grouping type parameter as written: only in version 1.
    pub open spec fn spec_param(&self) -> Option<u32> {
        if self.version == 1 {
            self.grouping_type_parameter
        } else {
            None
        }
    }
}

impl BoxCodec for SbgpBox {
    open spec fn spec_boxtype(&self) -> BoxType {
        BoxType::SBGP
    }

    fn boxtype(&self) -> (r: BoxType) {
        BoxType::SBGP
    }
}

impl<'de> BoxDecode<'de> for SbgpBox {
    open spec fn spec_accepts(bytes: Seq<u8>) -> bool {
        sbgp_accepts(bytes)
    }

    open spec fn spec_decodes(bytes: Seq<u8>, v: Self) -> bool {
        let h = sbgp_header_len(bytes[0]);
        &&& v.version == bytes[0]
        &&& v.flags.0 == be24(bytes, 1)
        &&& v.grouping_type.0 == be32(bytes, 4)
        &&& v.grouping_type_parameter == (if bytes[0] == 1 { Some(be32(bytes, 8)) } else { None::<u32> })
        &&& v.entries@ == spec_entries::<SbgpEntry>(bytes.skip(h))
    }

    fn decode(bytes: &'de [u8]) -> (r: Result<Self, Error>) {
        let view = SbgpBoxView::decode(bytes)?;
        Ok(SbgpBox::from(&view))
    }
}

impl BoxEncode for SbgpBox {
    open spec fn spec_encode(&self) -> Seq<u8> {
        seq![self.version] + u24_bytes(self.flags.0) + u32_bytes(self.grouping_type.0) + opt_u32_bytes(self.spec_param())
            + u32_bytes(self.entries@.len() as u32) + spec_entries_bytes(self.entries@)
    }

    open spec fn spec_encodable(&self) -> bool {
        &&& self.version == 1 ==> self.grouping_type_parameter is Some
        &&& self.entries@.len() <= u32::MAX
        &&& sbgp_header_len(self.version) + self.entries@.len() * 8 <= usize::MAX
    }

    fn encoded_len(&self) -> (r: usize) {
        proof {
            lemma_entries_bytes_len(self.entries@);
        }
        let h: usize = if self.version == 1 { 16 } else { 12 };
        if self.entries.len() > (usize::MAX - h) / 8 {
            usize::MAX
        } else {
            h + self.entries.len() * 8
        }
    }

    fn encode_into(&self, bytes: &mut [u8]) -> (r: Result<usize, Error>) {
        let ghost s0 = bytes@;
        proof {
            lemma_entries_bytes_len(self.entries@);
        }
        let param: Option<u32> = if self.version == 1 {
            match self.grouping_type_parameter {
                Some(x) => Some(x),
                None => {
                    return Err(Error::in_box(ErrorKind::InvalidBoxField { field: "grouping_type_parameter", reason: "Version 1 requires grouping_type_parameter" }, BoxType::SBGP));
                },
            }
        } else {
            None
        };
        assert(param == self.spec_param());
        if self.entries.len() > 0xFFFF_FFFF {
            return Err(Error::in_box(ErrorKind::Overflow, BoxType::SBGP));
        }
        let h: usize = if self.version == 1 { 16 } else { 12 };
        if bytes.len() < h || (bytes.len() - h) / 8 < self.entries.len() {
            return Err(short_buffer(h, bytes.len()));
        }
        let p = put_u8(bytes, 0, self.version)?;
        let p = put_u24(bytes, p, self.flags.0)?;
        proof {
            lemma_splice_concat(s0, 0, seq![self.version], u24_bytes(self.flags.0));
        }
        let ghost a = seq![self.version] + u24_bytes(self.flags.0);
        let p = put_u32(bytes, p, self.grouping_type.0)?;
        proof {
            lemma_splice_concat(s0, 0, a, u32_bytes(self.grouping_type.0));
            a = a + u32_bytes(self.grouping_type.0);
        }
        let p = match param {
            Some(x) => {
                let q = put_u32(bytes, p, x)?;
                proof {
                    lemma_splice_concat(s0, 0, a, u32_bytes(x));
                }
                q
            },
            None => p,
        };
        proof {
            assert(a + opt_u32_bytes(param) =~= (if param is Some { a + u32_bytes(param->0) } else { a }));
            a = a + opt_u32_bytes(param);
        }
        let p = put_u32(bytes, p, self.entries.len() as u32)?;
        proof {
            lemma_splice_concat(s0, 0, a, u32_bytes(self.entries@.len() as u32));
            a = a + u32_bytes(self.entries@.len() as u32);
        }
        let q = write_entries(bytes, p, &self.entries);
        proof {
            lemma_splice_concat(s0, 0, a, spec_entries_bytes(self.entries@));
        }
        Ok(q)
    }
}

/// Decoding the encoding of an `sbgp` box gives the box back, when it has a
/// grouping type parameter exactly in version 1.
pub proof fn lemma_sbgp_roundtrip(b: SbgpBox)
    requires
        b.flags.wf(),
        b.spec_encodable(),
        b.version != 1 ==> b.grouping_type_parameter is None,
    ensures
        SbgpBox::spec_accepts(b.spec_encode()),
        SbgpBox::spec_decodes(b.spec_encode(), b),
{
    let e = b.spec_encode();
    let h = sbgp_header_len(b.version);
    let n = b.entries@.len() as u32;
    let pre = seq![b.version] + u24_bytes(b.flags.0) + u32_bytes(b.grouping_type.0) + opt_u32_bytes(b.spec_param());
    lemma_entries_bytes_len(b.entries@);
    lemma_entries_roundtrip(b.entries@);
    assert(pre.len() == h - 4);
    assert(e =~= pre + u32_bytes(n) + spec_entries_bytes(b.entries@));
    assert(e.subrange(0, 1) =~= seq![b.version]);
    assert(e[0] == e.subrange(0, 1)[0]);
    assert(e.subrange(1, 4) =~= u24_bytes(b.flags.0));
    lemma_be24_in(e, 1, b.flags.0);
    assert(e.subrange(4, 8) =~= u32_bytes(b.grouping_type.0));
    lemma_be32_in(e, 4, b.grouping_type.0);
    if b.version == 1 {
        assert(e.subrange(8, 12) =~= u32_bytes(b.grouping_type_parameter->0));
        lemma_be32_in(e, 8, b.grouping_type_parameter->0);
    }
    assert(e.subrange(h - 4, h) =~= u32_bytes(n));
    lemma_be32_in(e, h - 4, n);
    assert(e.skip(h) =~= spec_entries_bytes(b.entries@));
}

/// The layout of a table of `SbgpEntry` entries: entry `i`, as the box hands it
/// out, holds `sample_count`, `group_description_index` read big-endian in that order from the 8 bytes
/// at `8 * i`; an entry is written as those fields in that order.
pub proof fn lemma_sbgp_entries_layout(s: Seq<u8>, i: int, e: SbgpEntry)
    requires
        0 <= i,
        (i + 1) * 8 <= s.len(),
    ensures
        crate::entries::spec_entries::<SbgpEntry>(s).len() > i,
        crate::entries::spec_entries::<SbgpEntry>(s)[i].sample_count == crate::bytes::be32(s, 8 * i + 0),
        crate::entries::spec_entries::<SbgpEntry>(s)[i].group_description_index == crate::bytes::be32(s, 8 * i + 4),
        e.spec_bytes() == u32_bytes(e.sample_count) + u32_bytes(e.group_description_index),
{
    crate::entries::lemma_entries_index::<SbgpEntry>(s, i);
    assert(i * SbgpEntry::spec_size() == 8 * i);
    crate::bytes::lemma_be_skip(s, 8 * i, 0);
    crate::bytes::lemma_be_skip_short(s, 8 * i, 4);
}

/// The layout of an `sbgp` payload: version and flags, the grouping type at
/// 4, the grouping type parameter at 8 in version 1 only, then the entry count
/// and from the next byte on the entries (12 bytes of header in version 0, 16
/// in version 1).
pub proof fn lemma_sbgp_view_layout<'a>(bytes: Seq<u8>, v: SbgpBoxView<'a>)
    requires
        SbgpBoxView::spec_decodes(bytes, v),
    ensures
        v.version == bytes[0],
        v.flags.0 == be24(bytes, 1),
        v.grouping_type.0 == be32(bytes, 4),
        bytes[0] == 1 ==> v.grouping_type_parameter == Some(be32(bytes, 8)) && v.entry_count == be32(bytes, 12)
            && v.entries@ == bytes.skip(16),
        bytes[0] != 1 ==> v.grouping_type_parameter is None && v.entry_count == be32(bytes, 8) && v.entries@ == bytes.skip(12),
{
}

/// The layout of an owned `sbgp` box: its header fields as in the view, and
/// its entries read from byte 12 (version 0) or 16 (version 1) on.
pub proof fn lemma_sbgp_box_layout(bytes: Seq<u8>, v: SbgpBox)
    requires
        SbgpBox::spec_decodes(bytes, v),
    ensures
        v.version == bytes[0],
        v.flags.0 == be24(bytes, 1),
        v.grouping_type.0 == be32(bytes, 4),
        bytes[0] == 1 ==> v.grouping_type_parameter == Some(be32(bytes, 8)) && v.entries@ == spec_entries::<SbgpEntry>(bytes.skip(16)),
        bytes[0] != 1 ==> v.grouping_type_parameter is None && v.entries@ == spec_entries::<SbgpEntry>(bytes.skip(12)),
{
}

} // verus!
