//! Data Reference Box (`dref`): where the media data of a track is, as a
//! list of data entry boxes (`url `, `urn `).
use vstd::prelude::*;

use crate::bytes::{be24, be32, u24_bytes, u32_bytes, lemma_be24_at, lemma_be32_at};
use crate::codec::{BoxCodec, BoxDecode, BoxEncode, short_buffer};
use crate::cursor::{put_u8, put_u24, put_u32, lemma_splice_concat, ReadCursor, splice};
use crate::error::{Error, ErrorKind};
use crate::flags::{BoxFlags, DrefFlags};
use crate::rawbox::{BoxIter, RawBoxOwned, spec_children, spec_children_ok, spec_box_len, write_raw_at, lemma_box_len_bounds};
use crate::types::BoxType;
use crate::children::lemma_children_step;
use crate::boxes::stsd::{raw_boxes_bytes, raw_boxes_concat, raw_boxes_wf, lemma_raw_len, lemma_raw_concat_prefix, lemma_raw_concat_prefix_len};

verus! {

/// Data Reference Box (`dref`) over a byte slice.
#[derive(Debug)]
pub struct DrefBoxView<'a> {
    /// Box version.
    pub version: u8,
    /// Box flags.
    pub flags: DrefFlags,
    /// The number of data entries, as declared.
    pub entry_count: u32,
    /// The bytes of the data entries.
    pub entries: &'a [u8],
}

impl<'a> DrefBoxView<'a> {
    /// An iterator over the data entry boxes.
    pub fn data_entries(&self) -> (r: BoxIter<'a>)
        ensures
            r.data@ == self.entries@,
            r.pos == 0,
            r.rest() == self.entries@,
    {
        BoxIter::new(self.entries)
    }
}

impl BoxCodec for DrefBoxView<'_> {
    open spec fn spec_boxtype(&self) -> BoxType {
        BoxType::DREF
    }

    fn boxtype(&self) -> (r: BoxType) {
        BoxType::DREF
    }
}

impl<'de> BoxDecode<'de> for DrefBoxView<'de> {
    open spec fn spec_accepts(bytes: Seq<u8>) -> bool {
        bytes.len() >= 8
    }

    open spec fn spec_decodes(bytes: Seq<u8>, v: Self) -> bool {
        &&& v.version == bytes[0]
        &&& v.flags.0 == be24(bytes, 1)
        &&& v.entry_count == be32(bytes, 4)
        &&& v.entries@ == bytes.skip(8)
    }

    fn decode(bytes: &'de [u8]) -> (r: Result<Self, Error>) {
        let mut cur = ReadCursor::new(bytes);
        let version = cur.read_u8()?;
        let flags = BoxFlags(cur.read_u24_be()?);
        let entry_count = cur.read_u32_be()?;
        let n = cur.remaining();
        let entries = cur.take(n)?;
        assert(entries@ =~= bytes@.skip(8));
        Ok(DrefBoxView { version, flags, entry_count, entries })
    }
}

/// Data Reference Box (`dref`) with its data entries as boxes.
#[derive(Debug, Clone)]
pub struct DrefBox {
    /// Box version.
    pub version: u8,
    /// Box flags.
    pub flags: DrefFlags,
    /// The data entries.
    pub entries: Vec<RawBoxOwned>,
}

impl Default for DrefBox {
    fn default() -> (r: DrefBox)
        ensures
            r.version == 0,
            r.flags.0 == 0,
            r.entries@.len() == 0,
    {
        DrefBox { version: 0, flags: BoxFlags(0), entries: Vec::new() }
    }
}

impl DrefBox {
    /// The owned box of a view: its data entries copied, an error when one
    /// of them is malformed.
    pub fn try_from(view: &DrefBoxView<'_>) -> (r: Result<DrefBox, Error>)
        ensures
            (r is Ok) == spec_children_ok(view.entries@),
            r matches Ok(b) ==> {
                &&& b.version == view.version
                &&& b.flags == view.flags
                &&& raw_boxes_bytes(b.entries@) == spec_children(view.entries@)
                &&& raw_boxes_wf(b.entries@)
            },
    {
        let mut entries: Vec<RawBoxOwned> = Vec::new();
        let mut it = view.data_entries();
        loop
            invariant_except_break
                it.data@ == view.entries@,
                it.pos <= it.data@.len(),
                spec_children(view.entries@) == raw_boxes_bytes(entries@) + spec_children(it.rest()),
                spec_children_ok(view.entries@) == spec_children_ok(it.rest()),
                raw_boxes_wf(entries@),
            ensures
                spec_children_ok(view.entries@),
                spec_children(view.entries@) == raw_boxes_bytes(entries@),
                raw_boxes_wf(entries@),
            decreases it.data@.len() - it.pos,
        {
            let ghost rest = it.rest();
            match it.next() {
                None => {
                    assert(raw_boxes_bytes(entries@) + Seq::<Seq<u8>>::empty() =~= raw_boxes_bytes(entries@));
                    break;
                },
                Some(Err(e)) => {
                    return Err(e);
                },
                Some(Ok(b)) => {
                    proof {
                        lemma_children_step(rest);
                        lemma_box_len_bounds(rest);
                    }
                    let o = b.to_owned();
                    let ghost before = entries@;
                    entries.push(o);
                    proof {
                        assert(o.spec_bytes() =~= b.data@);
                        assert(raw_boxes_bytes(entries@) =~= raw_boxes_bytes(before).push(b.data@));
                        assert(raw_boxes_bytes(entries@) + spec_children(it.rest()) =~= raw_boxes_bytes(before) + (
                        seq![rest.take(spec_box_len(rest)->0)] + spec_children(rest.skip(spec_box_len(rest)->0))));
                        assert forall|i: int| 0 <= i < entries@.len() implies #[trigger] entries@[i].header.boxtype.wf() by {
                            if i < before.len() {
                                assert(entries@[i] == before[i]);
                            }
                        }
                    }
                },
            }
        }
        Ok(DrefBox { version: view.version, flags: view.flags, entries })
    }
}

impl BoxCodec for DrefBox {
    open spec fn spec_boxtype(&self) -> BoxType {
        BoxType::DREF
    }

    fn boxtype(&self) -> (r: BoxType) {
        BoxType::DREF
    }
}

impl<'de> BoxDecode<'de> for DrefBox {
    open spec fn spec_accepts(bytes: Seq<u8>) -> bool {
        bytes.len() >= 8 && spec_children_ok(bytes.skip(8))
    }

    open spec fn spec_decodes(bytes: Seq<u8>, v: Self) -> bool {
        &&& v.version == bytes[0]
        &&& v.flags.0 == be24(bytes, 1)
        &&& raw_boxes_bytes(v.entries@) == spec_children(bytes.skip(8))
        &&& raw_boxes_wf(v.entries@)
    }

    fn decode(bytes: &'de [u8]) -> (r: Result<Self, Error>) {
        let view = DrefBoxView::decode(bytes)?;
        DrefBox::try_from(&view)
    }
}

impl DrefBox {
    /// The length of the payload, or `usize::MAX` when it does not fit.
    fn total_len(&self) -> (r: usize)
        ensures
            r < usize::MAX ==> r == self.spec_encode().len(),
            r == usize::MAX ==> self.spec_encode().len() >= usize::MAX,
    {
        let mut len: usize = 8;
        let mut i: usize = 0;
        while i < self.entries.len()
            invariant
                i <= self.entries@.len(),
                len == 8 + raw_boxes_concat(self.entries@.take(i as int)).len(),
                self.spec_encode().len() == 8 + raw_boxes_concat(self.entries@).len(),
            decreases self.entries@.len() - i,
        {
            let e = &self.entries[i];
            let pl = e.payload.len();
            let hl = e.header.header_len();
            proof {
                lemma_raw_concat_prefix(self.entries@, i as int);
                lemma_raw_concat_prefix_len(self.entries@, i as int);
                lemma_raw_len(*e);
            }
            if pl > usize::MAX - hl || pl + hl > usize::MAX - len {
                return usize::MAX;
            }
            len = len + hl + pl;
            i = i + 1;
        }
        assert(self.entries@.take(i as int) =~= self.entries@);
        if len == usize::MAX {
            return usize::MAX;
        }
        len
    }
}

impl BoxEncode for DrefBox {
    open spec fn spec_encode(&self) -> Seq<u8> {
        seq![self.version] + u24_bytes(self.flags.0) + u32_bytes(self.entries@.len() as u32) + raw_boxes_concat(self.entries@)
    }

    open spec fn spec_encodable(&self) -> bool {
        &&& self.entries@.len() <= u32::MAX
        &&& self.spec_encode().len() < usize::MAX
    }

    fn encoded_len(&self) -> (r: usize) {
        self.total_len()
    }

    fn encode_into(&self, bytes: &mut [u8]) -> (r: Result<usize, Error>) {
        let ghost s0 = bytes@;
        if self.entries.len() > 0xFFFF_FFFF {
            return Err(Error::in_box(ErrorKind::Overflow, BoxType::DREF));
        }
        let need = self.total_len();
        if need == usize::MAX || bytes.len() < need {
            return Err(short_buffer(need, bytes.len()));
        }
        let p = put_u8(bytes, 0, self.version)?;
        let p = put_u24(bytes, p, self.flags.0)?;
        proof {
            lemma_splice_concat(s0, 0, seq![self.version], u24_bytes(self.flags.0));
        }
        let p = put_u32(bytes, p, self.entries.len() as u32)?;
        let ghost a = seq![self.version] + u24_bytes(self.flags.0) + u32_bytes(self.entries@.len() as u32);
        proof {
            lemma_splice_concat(s0, 0, seq![self.version] + u24_bytes(self.flags.0), u32_bytes(self.entries@.len() as u32));
        }
        let mut p = p;
        let mut i: usize = 0;
        while i < self.entries.len()
            invariant
                i <= self.entries@.len(),
                a.len() == 8,
                need == self.spec_encode().len(),
                self.spec_encode() == a + raw_boxes_concat(self.entries@),
                need <= bytes@.len(),
                bytes@.len() == s0.len(),
                p == 8 + raw_boxes_concat(self.entries@.take(i as int)).len(),
                bytes@ == splice(s0, 0, a + raw_boxes_concat(self.entries@.take(i as int))),
            decreases self.entries@.len() - i,
        {
            proof {
                lemma_raw_concat_prefix(self.entries@, i as int);
                lemma_raw_concat_prefix_len(self.entries@, i as int);
                assert(self.entries@.take(i + 1).drop_last() =~= self.entries@.take(i as int));
            }
            let ghost before = a + raw_boxes_concat(self.entries@.take(i as int));
            let q = write_raw_at(bytes, p, &self.entries[i])?;
            proof {
                lemma_splice_concat(s0, 0, before, self.entries@[i as int].spec_bytes());
            }
            p = q;
            i = i + 1;
        }
        assert(self.entries@.take(i as int) =~= self.entries@);
        Ok(p)
    }
}

/// The layout of a `dref` payload: what a view of `dref` box decoded from
/// `bytes` holds, field by field, read at fixed offsets.
pub proof fn lemma_dref_box_view_layout<'a>(bytes: Seq<u8>, v: DrefBoxView<'a>)
    requires
        DrefBoxView::spec_decodes(bytes, v),
    ensures
        v.version == bytes[0],
        v.flags.0 == be24(bytes, 1),
        v.entry_count == be32(bytes, 4),
        v.entries@ == bytes.skip(8),
{
}

} // verus!
