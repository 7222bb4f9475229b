//! Sample Description Box (`stsd`): the sample entries (codec descriptions) of
//! a track, each a box of its own.
use vstd::prelude::*;

use crate::bytes::{be24, be32, be64, u24_bytes, u32_bytes, u64_bytes, lemma_be24_at, lemma_be32_at, lemma_be64_at};
use crate::codec::{BoxCodec, BoxDecode, BoxEncode, short_buffer};
use crate::cursor::{put_u8, put_u24, put_u32, lemma_splice_concat, ReadCursor, splice};
use crate::error::{Error, ErrorKind};
use crate::flags::{BoxFlags, StsdFlags};
use crate::rawbox::{BoxIter, BoxSize, RawBoxOwned, spec_header_len, spec_children, spec_children_ok, spec_box_len, write_raw_at, lemma_box_len_bounds};
use crate::types::BoxType;
use crate::children::lemma_children_step;

verus! {

/// Sample Description Box (`stsd`) over a byte slice.
#[derive(Debug)]
pub struct StsdBoxView<'a> {
    /// Box version.
    pub version: u8,
    /// Box flags.
    pub flags: StsdFlags,
    /// The number of sample entries, as declared.
    pub entry_count: u32,
    /// The bytes of the sample entries.
    pub entries: &'a [u8],
}

impl<'a> StsdBoxView<'a> {
    /// An iterator over the sample entry boxes.
    pub fn sample_entries(&self) -> (r: BoxIter<'a>)
        ensures
            r.data@ == self.entries@,
            r.pos == 0,
            r.rest() == self.entries@,
    {
        BoxIter::new(self.entries)
    }
}

impl BoxCodec for StsdBoxView<'_> {
    open spec fn spec_boxtype(&self) -> BoxType {
        BoxType::STSD
    }

    fn boxtype(&self) -> (r: BoxType) {
        BoxType::STSD
    }
}

impl<'de> BoxDecode<'de> for StsdBoxView<'de> {
    open spec fn spec_accepts(bytes: Seq<u8>) -> bool {
        bytes.len() >= 8
    }

    open spec fn spec_decodes(bytes: Seq<u8>, v: Self) -> bool {
        &&& v.version == bytes[0]
        &&& v.flags.0 == be24(bytes, 1)
        &&& v.entry_count == be32(bytes, 4)
        &&& v.entries@ == bytes.skip(8)
    }

    fn decode(bytes: &'de [u8]) -> (r: Result<Self, Error>) {
        let mut cur = ReadCursor::new(bytes);
        let version = cur.read_u8()?;
        let flags = BoxFlags(cur.read_u24_be()?);
        let entry_count = cur.read_u32_be()?;
        let n = cur.remaining();
        let entries = cur.take(n)?;
        assert(entries@ =~= bytes@.skip(8));
        Ok(StsdBoxView { version, flags, entry_count, entries })
    }
}

/// The bytes of each of a sequence of boxes.
pub open spec fn raw_boxes_bytes(es: Seq<RawBoxOwned>) -> Seq<Seq<u8>> {
    es.map_values(|e: RawBoxOwned| e.spec_bytes())
}

/// The bytes of a sequence of boxes, one after another.
pub open spec fn raw_boxes_concat(es: Seq<RawBoxOwned>) -> Seq<u8>
    decreases es.len(),
{
    if es.len() == 0 {
        Seq::empty()
    } else {
        raw_boxes_concat(es.drop_last()) + es.last().spec_bytes()
    }
}

/// Whether every box of a sequence has a type that can be written.
pub open spec fn raw_boxes_wf(es: Seq<RawBoxOwned>) -> bool {
    forall|i: int| 0 <= i < es.len() ==> #[trigger] es[i].header.boxtype.wf()
}

/// Copies the consecutive boxes of `content`; an error when one of them is malformed.
pub fn copy_children(content: &[u8]) -> (r: Result<Vec<RawBoxOwned>, Error>)
    ensures
        (r is Ok) == spec_children_ok(content@),
        r matches Ok(es) ==> raw_boxes_bytes(es@) == spec_children(content@) && raw_boxes_wf(es@),
{
        let mut entries: Vec<RawBoxOwned> = Vec::new();
    let mut it = BoxIter::new(content);
    loop
        invariant_except_break
            it.data@ == content@,
            it.pos <= it.data@.len(),
            spec_children(content@) == raw_boxes_bytes(entries@) + spec_children(it.rest()),
            spec_children_ok(content@) == spec_children_ok(it.rest()),
            raw_boxes_wf(entries@),
        ensures
            spec_children_ok(content@),
            spec_children(content@) == raw_boxes_bytes(entries@),
            raw_boxes_wf(entries@),
        decreases it.data@.len() - it.pos,
    {
        let ghost rest = it.rest();
        match it.next() {
            None => {
                assert(raw_boxes_bytes(entries@) + Seq::<Seq<u8>>::empty() =~= raw_boxes_bytes(entries@));
                break;
            },
            Some(Err(e)) => {
                return Err(e);
            },
            Some(Ok(b)) => {
                proof {
                    lemma_children_step(rest);
                    lemma_box_len_bounds(rest);
                }
                let o = b.to_owned();
                let ghost before = entries@;
                entries.push(o);
                proof {
                    assert(o.spec_bytes() =~= b.data@);
                    assert(raw_boxes_bytes(entries@) =~= raw_boxes_bytes(before).push(b.data@));
                    assert(raw_boxes_bytes(entries@) + spec_children(it.rest()) =~= raw_boxes_bytes(before) + (
                    seq![rest.take(spec_box_len(rest)->0)] + spec_children(rest.skip(spec_box_len(rest)->0))));
                    assert forall|i: int| 0 <= i < entries@.len() implies #[trigger] entries@[i].header.boxtype.wf() by {
                        if i < before.len() {
                            assert(entries@[i] == before[i]);
                        }
                    }
                }
            },
        }
    }
    Ok(entries)
}

/// The total length of boxes, or `usize::MAX` when it does not fit.
pub fn raw_boxes_len(es: &Vec<RawBoxOwned>) -> (r: usize)
    ensures
        r < usize::MAX ==> r == raw_boxes_concat(es@).len(),
        r == usize::MAX ==> raw_boxes_concat(es@).len() >= usize::MAX,
{
    let mut len: usize = 0;
    let mut i: usize = 0;
    while i < es.len()
        invariant
            i <= es@.len(),
            len == raw_boxes_concat(es@.take(i as int)).len(),
        decreases es@.len() - i,
    {
        let e = &es[i];
        let pl = e.payload.len();
        let hl = e.header.header_len();
        proof {
            lemma_raw_concat_prefix(es@, i as int);
            lemma_raw_concat_prefix_len(es@, i as int);
            lemma_raw_len(*e);
        }
        if pl > usize::MAX - hl || pl + hl > usize::MAX - len {
            return usize::MAX;
        }
        len = len + hl + pl;
        i = i + 1;
    }
    assert(es@.take(i as int) =~= es@);
    if len == usize::MAX {
        return usize::MAX;
    }
    len
}

/// Writes boxes into `buf` at `pos`, one after another.
pub fn write_raw_boxes(buf: &mut [u8], pos: usize, es: &Vec<RawBoxOwned>) -> (r: Result<usize, Error>)
    requires
        pos <= old(buf)@.len(),
    ensures
        final(buf)@.len() == old(buf)@.len(),
        (r is Ok) == (pos + raw_boxes_concat(es@).len() <= old(buf)@.len()),
        r matches Ok(p) ==> p == pos + raw_boxes_concat(es@).len() && final(buf)@ == splice(old(buf)@, pos as int, raw_boxes_concat(es@)),
{
    let ghost s0 = buf@;
    let mut p = pos;
    let mut i: usize = 0;
    proof {
        assert(es@.take(0) =~= Seq::<RawBoxOwned>::empty());
        crate::cursor::lemma_splice_empty(s0, pos as int);
    }
    while i < es.len()
        invariant
            s0 == old(buf)@,
            pos <= s0.len(),
            i <= es@.len(),
            buf@.len() == s0.len(),
            p == pos + raw_boxes_concat(es@.take(i as int)).len(),
            p <= s0.len(),
            buf@ == splice(s0, pos as int, raw_boxes_concat(es@.take(i as int))),
        decreases es@.len() - i,
    {
        proof {
            lemma_raw_concat_prefix(es@, i as int);
            lemma_raw_concat_prefix_len(es@, i as int);
        }
        let ghost before = raw_boxes_concat(es@.take(i as int));
        let w = write_raw_at(buf, p, &es[i]);
        match w {
            Ok(q) => {
                proof {
                    lemma_splice_concat(s0, pos as int, before, es@[i as int].spec_bytes());
                }
                p = q;
            },
            Err(e) => {
                return Err(e);
            },
        }
        i = i + 1;
    }
    assert(es@.take(i as int) =~= es@);
    Ok(p)
}

/// Sample Description Box (`stsd`) with its sample entries as boxes.
#[derive(Debug, Clone)]
pub struct StsdBox {
    /// Box version.
    pub version: u8,
    /// Box flags.
    pub flags: StsdFlags,
    /// The sample entries.
    pub entries: Vec<RawBoxOwned>,
}

impl Default for StsdBox {
    fn default() -> (r: StsdBox)
        ensures
            r.version == 0,
            r.flags.0 == 0,
            r.entries@.len() == 0,
    {
        StsdBox { version: 0, flags: BoxFlags(0), entries: Vec::new() }
    }
}

impl StsdBox {
    /// The owned box of a view: its sample entries copied, an error when one
    /// of them is malformed.
    pub fn try_from(view: &StsdBoxView<'_>) -> (r: Result<StsdBox, Error>)
        ensures
            (r is Ok) == spec_children_ok(view.entries@),
            r matches Ok(b) ==> {
                &&& b.version == view.version
                &&& b.flags == view.flags
                &&& raw_boxes_bytes(b.entries@) == spec_children(view.entries@)
                &&& raw_boxes_wf(b.entries@)
            },
    {
        let entries = copy_children(view.entries)?;
        Ok(StsdBox { version: view.version, flags: view.flags, entries })
    }
}

impl BoxCodec for StsdBox {
    open spec fn spec_boxtype(&self) -> BoxType {
        BoxType::STSD
    }

    fn boxtype(&self) -> (r: BoxType) {
        BoxType::STSD
    }
}

impl<'de> BoxDecode<'de> for StsdBox {
    open spec fn spec_accepts(bytes: Seq<u8>) -> bool {
        bytes.len() >= 8 && spec_children_ok(bytes.skip(8))
    }

    open spec fn spec_decodes(bytes: Seq<u8>, v: Self) -> bool {
        &&& v.version == bytes[0]
        &&& v.flags.0 == be24(bytes, 1)
        &&& raw_boxes_bytes(v.entries@) == spec_children(bytes.skip(8))
        &&& raw_boxes_wf(v.entries@)
    }

    fn decode(bytes: &'de [u8]) -> (r: Result<Self, Error>) {
        let view = StsdBoxView::decode(bytes)?;
        StsdBox::try_from(&view)
    }
}

impl StsdBox {
    /// The length of the payload, or `usize::MAX` when it does not fit.
    fn total_len(&self) -> (r: usize)
        ensures
            r < usize::MAX ==> r == self.spec_encode().len(),
            r == usize::MAX ==> self.spec_encode().len() >= usize::MAX,
    {
        let mut len: usize = 8;
        let mut i: usize = 0;
        while i < self.entries.len()
            invariant
                i <= self.entries@.len(),
                len == 8 + raw_boxes_concat(self.entries@.take(i as int)).len(),
                self.spec_encode().len() == 8 + raw_boxes_concat(self.entries@).len(),
            decreases self.entries@.len() - i,
        {
            let e = &self.entries[i];
            let pl = e.payload.len();
            let hl = e.header.header_len();
            proof {
                lemma_raw_concat_prefix(self.entries@, i as int);
                lemma_raw_concat_prefix_len(self.entries@, i as int);
                lemma_raw_len(*e);
            }
            if pl > usize::MAX - hl || pl + hl > usize::MAX - len {
                return usize::MAX;
            }
            len = len + hl + pl;
            i = i + 1;
        }
        assert(self.entries@.take(i as int) =~= self.entries@);
        if len == usize::MAX {
            return usize::MAX;
        }
        len
    }
}

/// A box is its header and its payload.
pub proof fn lemma_raw_len(e: RawBoxOwned)
    ensures
        e.spec_bytes().len() == e.header.spec_header_len() + e.payload@.len(),
{
}

impl BoxEncode for StsdBox {
    open spec fn spec_encode(&self) -> Seq<u8> {
        seq![self.version] + u24_bytes(self.flags.0) + u32_bytes(self.entries@.len() as u32) + raw_boxes_concat(self.entries@)
    }

    open spec fn spec_encodable(&self) -> bool {
        &&& self.entries@.len() <= u32::MAX
        &&& self.spec_encode().len() < usize::MAX
    }

    fn encoded_len(&self) -> (r: usize) {
        self.total_len()
    }

    fn encode_into(&self, bytes: &mut [u8]) -> (r: Result<usize, Error>) {
        let ghost s0 = bytes@;
        if self.entries.len() > 0xFFFF_FFFF {
            return Err(Error::in_box(ErrorKind::Overflow, BoxType::STSD));
        }
        let need = self.total_len();
        if need == usize::MAX || bytes.len() < need {
            return Err(short_buffer(need, bytes.len()));
        }
        let p = put_u8(bytes, 0, self.version)?;
        let p = put_u24(bytes, p, self.flags.0)?;
        proof {
            lemma_splice_concat(s0, 0, seq![self.version], u24_bytes(self.flags.0));
        }
        let p = put_u32(bytes, p, self.entries.len() as u32)?;
        let ghost a = seq![self.version] + u24_bytes(self.flags.0) + u32_bytes(self.entries@.len() as u32);
        proof {
            lemma_splice_concat(s0, 0, seq![self.version] + u24_bytes(self.flags.0), u32_bytes(self.entries@.len() as u32));
        }
        let mut p = p;
        let mut i: usize = 0;
        while i < self.entries.len()
            invariant
                i <= self.entries@.len(),
                a.len() == 8,
                need == self.spec_encode().len(),
                self.spec_encode() == a + raw_boxes_concat(self.entries@),
                need <= bytes@.len(),
                bytes@.len() == s0.len(),
                p == 8 + raw_boxes_concat(self.entries@.take(i as int)).len(),
                bytes@ == splice(s0, 0, a + raw_boxes_concat(self.entries@.take(i as int))),
            decreases self.entries@.len() - i,
        {
            proof {
                lemma_raw_concat_prefix(self.entries@, i as int);
                lemma_raw_concat_prefix_len(self.entries@, i as int);
                assert(self.entries@.take(i + 1).drop_last() =~= self.entries@.take(i as int));
            }
            let ghost before = a + raw_boxes_concat(self.entries@.take(i as int));
            let q = write_raw_at(bytes, p, &self.entries[i])?;
            proof {
                lemma_splice_concat(s0, 0, before, self.entries@[i as int].spec_bytes());
            }
            p = q;
            i = i + 1;
        }
        assert(self.entries@.take(i as int) =~= self.entries@);
        Ok(p)
    }
}

/// The bytes of the first `i + 1` boxes are those of the first `i` and then box `i`.
pub proof fn lemma_raw_concat_prefix(es: Seq<RawBoxOwned>, i: int)
    requires
        0 <= i < es.len(),
    ensures
        raw_boxes_concat(es.take(i + 1)) == raw_boxes_concat(es.take(i)) + es[i].spec_bytes(),
{
    assert(es.take(i + 1).drop_last() =~= es.take(i));
    assert(es.take(i + 1).last() == es[i]);
}

/// The bytes of the first boxes are no longer than those of all of them.
pub proof fn lemma_raw_concat_prefix_len(es: Seq<RawBoxOwned>, i: int)
    requires
        0 <= i < es.len(),
    ensures
        raw_boxes_concat(es.take(i + 1)).len() <= raw_boxes_concat(es).len(),
    decreases es.len() - i,
{
    if i + 1 < es.len() {
        lemma_raw_concat_prefix_len(es, i + 1);
        lemma_raw_concat_prefix(es, i + 1);
    } else {
        assert(es.take(i + 1) =~= es);
    }
}

/// Whether the header of a box declares the length the box has: its header
/// and payload (a box that runs to the end of its data declares none).
pub open spec fn raw_box_framed(e: RawBoxOwned) -> bool {
    match e.header.size {
        BoxSize::Compact(n) => n as int == 8 + e.payload@.len(),
        BoxSize::Extended(n) => n as int == 16 + e.payload@.len(),
        BoxSize::Eof => false,
    }
}

/// A box whose header declares its length frames itself, whatever follows it.
proof fn lemma_raw_frame(e: RawBoxOwned, rest: Seq<u8>)
    requires
        raw_box_framed(e),
    ensures
        spec_box_len(e.spec_bytes() + rest) == Some(e.spec_bytes().len() as int),
        (e.spec_bytes() + rest).take(e.spec_bytes().len() as int) == e.spec_bytes(),
        (e.spec_bytes() + rest).skip(e.spec_bytes().len() as int) == rest,
{
    let c = e.header.boxtype.code();
    let p = e.payload@;
    let s = e.spec_bytes() + rest;
    match e.header.size {
        BoxSize::Compact(n) => {
            assert(s =~= Seq::<u8>::empty() + u32_bytes(n) + (u32_bytes(c) + p + rest));
            lemma_be32_at(Seq::empty(), n, u32_bytes(c) + p + rest);
        },
        BoxSize::Extended(n) => {
            assert(s =~= Seq::<u8>::empty() + u32_bytes(1) + (u32_bytes(c) + u64_bytes(n) + p + rest));
            lemma_be32_at(Seq::empty(), 1, u32_bytes(c) + u64_bytes(n) + p + rest);
            assert(s =~= (u32_bytes(1) + u32_bytes(c)) + u64_bytes(n) + (p + rest));
            lemma_be64_at(u32_bytes(1) + u32_bytes(c), n, p + rest);
        },
        BoxSize::Eof => {},
    }
    assert(s.take(e.spec_bytes().len() as int) =~= e.spec_bytes());
    assert(s.skip(e.spec_bytes().len() as int) =~= rest);
}

/// The boxes of written boxes whose headers declare their lengths, followed by
/// `rest`: those boxes, then the boxes of `rest`.
pub proof fn lemma_raw_boxes_children(es: Seq<RawBoxOwned>, rest: Seq<u8>)
    requires
        forall|i: int| 0 <= i < es.len() ==> raw_box_framed(#[trigger] es[i]),
    ensures
        spec_children(raw_boxes_concat(es) + rest) == raw_boxes_bytes(es) + spec_children(rest),
        spec_children_ok(raw_boxes_concat(es) + rest) == spec_children_ok(rest),
    decreases es.len(),
{
    if es.len() == 0 {
        assert(raw_boxes_concat(es) + rest =~= rest);
        assert(raw_boxes_bytes(es) + spec_children(rest) =~= spec_children(rest));
    } else {
        let d = es.drop_last();
        let l = es.last();
        assert(l == es[es.len() - 1]);
        assert forall|i: int| 0 <= i < d.len() implies raw_box_framed(#[trigger] d[i]) by {
            assert(d[i] == es[i]);
        }
        lemma_raw_frame(l, rest);
        let t = l.spec_bytes() + rest;
        lemma_box_len_bounds(t);
        lemma_children_step(t);
        lemma_raw_boxes_children(d, t);
        assert(raw_boxes_concat(es) + rest =~= raw_boxes_concat(d) + t);
        assert(raw_boxes_bytes(es) =~= raw_boxes_bytes(d).push(l.spec_bytes()));
        assert(spec_children(t) =~= seq![l.spec_bytes()] + spec_children(rest));
        assert(raw_boxes_bytes(d) + spec_children(t) =~= raw_boxes_bytes(es) + spec_children(rest));
    }
}

/// Decoding the encoding of an owned `stsd` box gives the box back, when the
/// header of each sample entry declares the entry's length and its type can be
/// written.
pub proof fn lemma_stsd_roundtrip(b: StsdBox)
    requires
        b.flags.0 < 0x100_0000,
        b.entries@.len() <= u32::MAX,
        raw_boxes_wf(b.entries@),
        forall|i: int| 0 <= i < b.entries@.len() ==> raw_box_framed(#[trigger] b.entries@[i]),
    ensures
        StsdBox::spec_accepts(b.spec_encode()),
        StsdBox::spec_decodes(b.spec_encode(), b),
{
    let e = b.spec_encode();
    let cat = raw_boxes_concat(b.entries@);
    let n = b.entries@.len() as u32;
    assert(e =~= seq![b.version] + u24_bytes(b.flags.0) + (u32_bytes(n) + cat));
    lemma_be24_at(seq![b.version], b.flags.0, u32_bytes(n) + cat);
    assert(e.skip(8) =~= cat);
    assert(e[0] == b.version);
    lemma_raw_boxes_children(b.entries@, Seq::empty());
    assert(cat + Seq::<u8>::empty() =~= cat);
    assert(spec_children(Seq::<u8>::empty()) =~= Seq::<Seq<u8>>::empty());
    assert(raw_boxes_bytes(b.entries@) + Seq::<Seq<u8>>::empty() =~= raw_boxes_bytes(b.entries@));
}

/// The layout of a `stsd` payload: what a view of `stsd` box decoded from
/// `bytes` holds, field by field, read at fixed offsets.
pub proof fn lemma_stsd_box_view_layout<'a>(bytes: Seq<u8>, v: StsdBoxView<'a>)
    requires
        StsdBoxView::spec_decodes(bytes, v),
    ensures
        v.version == bytes[0],
        v.flags.0 == be24(bytes, 1),
        v.entry_count == be32(bytes, 4),
        v.entries@ == bytes.skip(8),
{
}

} // verus!
