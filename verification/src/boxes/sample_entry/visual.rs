//! Visual sample entries (ISO/IEC 14496-12, 12.1): the fields every video
//! codec's sample entry begins with, and its child boxes.
use vstd::prelude::*;

use vstd::string::StringSliceAdditionalSpecFns;
use vstd::utf8::valid_utf8;

use crate::bytes::{be16, be32, u16_bytes, u32_bytes, lemma_be16_at, lemma_be32_at};
use crate::children::{first_dup, is_duplicate_error, lemma_first_dup_push, lemma_first_dup_prefix, ref_ok, refs_ok, decode_child, optional_child, all_accepted, payloads_of, count_code, box_code, box_payload, slot, opt_decoded, others_of, refs_bytes, lemma_others_push, lemma_refs_push, lemma_contains3, lemma_slot_other, lemma_slot_fill, lemma_children_push, lemma_children_step, lemma_count_grows, lemma_rejected_stays, lemma_payloads_count, lemma_slot_unfold, lemma_slot_empty};
use crate::codec::{BoxDecode, BoxEncode, spec_opt_boxed, spec_opt_encodable, opt_boxed_len, write_opt_box_at};
use crate::cursor::{ReadCursor, splice, put_zeros, put_u16, put_u32, put_slice, lemma_splice_concat};
use crate::error::{Error, ErrorKind};
use crate::rawbox::{BoxIter, RawBoxRef, spec_children, spec_children_ok, spec_box_len, lemma_box_len_bounds};
use crate::text::str_from_utf8;
use crate::types::{BoxType, U16F16};
use crate::boxes::clap::ClapBox;
use crate::boxes::colr::{ColrBox, ColrBoxView};
use crate::boxes::pasp::PaspBox;
use super::{SampleEntry, zeros};

verus! {

/// The length of the name held by a compressor name field of 32 bytes whose
/// first byte is `n`: at most 31.
pub open spec fn name_len(n: u8) -> int {
    if n < 31 {
        n as int
    } else {
        31
    }
}

/// The 32 bytes of the compressor name field for the name bytes `b`: their
/// length (at most 31), then their first 31 bytes at most, then zeros.
pub open spec fn name_field(b: Seq<u8>) -> Seq<u8> {
    let n = if b.len() < 31 { b.len() as int } else { 31 };
    seq![n as u8] + b.take(n) + zeros((31 - n) as nat)
}

/// The `compressorname` field of a visual sample entry: 32 bytes, the first
/// one the length of the name (up to 31) and then the UTF-8 name.
#[derive(Debug, Clone, Copy, PartialEq, Eq)]
pub struct CompressorName(pub [u8; 32]);

impl CompressorName {
    /// The field for `name`, truncated to its first 31 bytes.
    pub fn new(name: &str) -> (r: CompressorName)
        ensures
            r.0@ == name_field(name.spec_bytes()),
    {
        let bytes = name.as_bytes();
        let len: usize = if bytes.len() < 31 {
            bytes.len()
        } else {
            31
        };
        let mut a = [0u8; 32];
        assert(a@ =~= zeros(32));
        a[0] = len as u8;
        let mut i: usize = 0;
        while i < len
            invariant
                len <= 31,
                len <= bytes@.len(),
                i <= len,
                a@.len() == 32,
                a@[0] == len as u8,
                forall|j: int| 0 <= j < i ==> a@[1 + j] == bytes@[j],
                forall|j: int| 1 + i <= j < 32 ==> a@[j] == 0,
            decreases len - i,
        {
            a[1 + i] = bytes[i];
            i = i + 1;
        }
        assert(a@ =~= name_field(name.spec_bytes()));
        CompressorName(a)
    }

    /// The field with the given 32 bytes.
    pub fn from_raw(raw: [u8; 32]) -> (r: CompressorName)
        ensures
            r.0 == raw,
    {
        CompressorName(raw)
    }

    /// The 32 bytes of the field.
    pub fn into_raw(self) -> (r: [u8; 32])
        ensures
            r == self.0,
    {
        self.0
    }

    /// The bytes of the name: as many as the first byte says, at most 31.
    pub open spec fn name_bytes(&self) -> Seq<u8> {
        self.0@.subrange(1, 1 + name_len(self.0@[0]))
    }

    /// The name, when its bytes are valid UTF-8.
    pub fn as_str(&self) -> (r: Option<&str>)
        ensures
            r is Some <==> valid_utf8(self.name_bytes()),
            r matches Some(s) ==> s.spec_bytes() == self.name_bytes(),
    {
        let first = self.0[0];
        let len: usize = if first < 31 {
            first as usize
        } else {
            31
        };
        let s = self.0.as_slice();
        let b = &s[1..1 + len];
        assert(b@ =~= self.name_bytes());
        str_from_utf8(b)
    }
}

/// The field made from a name of at most 31 bytes gives that name back, as
/// valid UTF-8.
pub proof fn lemma_name_roundtrip(name: &str, c: CompressorName)
    requires
        c.0@ == name_field(name.spec_bytes()),
        name.spec_bytes().len() <= 31,
    ensures
        c.name_bytes() == name.spec_bytes(),
        valid_utf8(c.name_bytes()),
{
    let b = name.spec_bytes();
    assert(name_field(b)[0] == b.len() as u8);
    assert(name_field(b).subrange(1, 1 + b.len() as int) =~= b);
    vstd::utf8::encode_utf8_valid_utf8(name@);
}

/// The size of the fixed fields of a visual sample entry.
pub open spec fn visual_fixed_len() -> int {
    78
}

/// Whether `v` holds the fields of the visual sample entry `s`: the sample
/// entry fields, sixteen bytes of `pre_defined` and reserved, width, height,
/// the horizontal and vertical resolutions, four reserved bytes, the frame
/// count, the 32-byte compressor name, the depth, two bytes of
/// `pre_defined`, and the child boxes after them.
pub open spec fn visual_view_of<'a>(s: Seq<u8>, v: VisualSampleEntryView<'a>) -> bool {
    &&& v.base.data_reference_index == be16(s, 6)
    &&& v.width == be16(s, 24)
    &&& v.height == be16(s, 26)
    &&& v.horizresolution.0 == be32(s, 28)
    &&& v.vertresolution.0 == be32(s, 32)
    &&& v.frame_count == be16(s, 40)
    &&& v.compressorname.0@ == s.subrange(42, 74)
    &&& v.depth == be16(s, 74)
    &&& v.content@ == s.skip(78)
}

/// A visual sample entry over the bytes of its child boxes.
#[derive(Debug)]
pub struct VisualSampleEntryView<'a> {
    /// The fields common to all sample entries.
    pub base: SampleEntry,
    /// Width in pixels.
    pub width: u16,
    /// Height in pixels.
    pub height: u16,
    /// Horizontal resolution in pixels per inch (16.16 fixed-point).
    pub horizresolution: U16F16,
    /// Vertical resolution in pixels per inch (16.16 fixed-point).
    pub vertresolution: U16F16,
    /// Frames per sample (usually 1).
    pub frame_count: u16,
    /// The compressor name field.
    pub compressorname: CompressorName,
    /// Colour depth in bits; 0x0018 is colour without alpha.
    pub depth: u16,
    /// The child boxes.
    pub content: &'a [u8],
}

/// Reads the 32 bytes of a compressor name field.
fn read_name(cur: &mut ReadCursor<'_>) -> (r: Result<CompressorName, Error>)
    requires
        old(cur).wf(),
    ensures
        final(cur).wf(),
        final(cur).bytes@ == old(cur).bytes@,
        old(cur).has(32) ==> old(cur).moved(final(cur), 32) && (r matches Ok(v) && v.0@ == old(cur).rest().take(32)),
        !old(cur).has(32) ==> r is Err,
{
    let s = cur.take(32)?;
    let mut a = [0u8; 32];
    let mut i: usize = 0;
    while i < 32
        invariant
            s@.len() == 32,
            i <= 32,
            a@.len() == 32,
            forall|j: int| 0 <= j < i ==> a@[j] == s@[j],
        decreases 32 - i,
    {
        a[i] = s[i];
        i = i + 1;
    }
    assert(a@ =~= s@);
    assert(s@ =~= old(cur).rest().take(32));
    Ok(CompressorName(a))
}

impl<'a> VisualSampleEntryView<'a> {
    /// The fields common to all sample entries.
    pub fn sample_entry(&self) -> (r: &SampleEntry)
        ensures
            *r == self.base,
    {
        &self.base
    }

    /// An iterator over the child boxes.
    pub fn boxes_in(&self) -> (r: BoxIter<'a>)
        ensures
            r.data@ == self.content@,
            r.pos == 0,
            r.rest() == self.content@,
    {
        BoxIter::new(self.content)
    }

    /// The Colour Information Box (`colr`), if any.
    pub fn colr(&self) -> (r: Result<Option<ColrBoxView<'a>>, Error>)
        ensures
            optional_child(self.content@, BoxType::COLR, r),
    {
        decode_child(self.content, BoxType::COLR)
    }

    /// The Clean Aperture Box (`clap`), if any.
    pub fn clap(&self) -> (r: Result<Option<ClapBox>, Error>)
        ensures
            optional_child(self.content@, BoxType::CLAP, r),
    {
        decode_child(self.content, BoxType::CLAP)
    }

    /// The Pixel Aspect Ratio Box (`pasp`), if any.
    pub fn pasp(&self) -> (r: Result<Option<PaspBox>, Error>)
        ensures
            optional_child(self.content@, BoxType::PASP, r),
    {
        decode_child(self.content, BoxType::PASP)
    }

    /// Reads a visual sample entry from the rest of `cur`: its fixed fields,
    /// then everything after them as its child boxes.
    pub fn parse_in(cur: &mut ReadCursor<'a>) -> (r: Result<VisualSampleEntryView<'a>, Error>)
        requires
            old(cur).wf(),
        ensures
            final(cur).wf(),
            final(cur).bytes@ == old(cur).bytes@,
            old(cur).has(visual_fixed_len()) ==> (r matches Ok(v) && visual_view_of(old(cur).rest(), v))
                && final(cur).pos == final(cur).bytes@.len(),
            !old(cur).has(visual_fixed_len()) ==> r is Err,
    {
        let ghost s = old(cur).rest();
        let ghost p0 = old(cur).pos as int;
        let base = SampleEntry::parse_in(cur)?;
        cur.advance(2)?;
        cur.advance(2)?;
        cur.advance(12)?;
        let width = cur.read_u16_be()?;
        let height = cur.read_u16_be()?;
        let h = cur.read_u32_be()?;
        let v = cur.read_u32_be()?;
        cur.advance(4)?;
        let frame_count = cur.read_u16_be()?;
        let compressorname = read_name(cur)?;
        let depth = cur.read_u16_be()?;
        cur.advance(2)?;
        let n = cur.remaining();
        let content = cur.take(n)?;
        proof {
            let b = old(cur).bytes@;
            assert(be16(b, p0 + 24) == be16(s, 24));
            assert(be16(b, p0 + 26) == be16(s, 26));
            assert(be32(b, p0 + 28) == be32(s, 28));
            assert(be32(b, p0 + 32) == be32(s, 32));
            assert(be16(b, p0 + 40) == be16(s, 40));
            assert(be16(b, p0 + 74) == be16(s, 74));
            assert(compressorname.0@ =~= s.subrange(42, 74));
            assert(content@ =~= s.skip(78));
        }
        Ok(VisualSampleEntryView {
            base,
            width,
            height,
            horizresolution: U16F16::from_raw(h),
            vertresolution: U16F16::from_raw(v),
            frame_count,
            compressorname,
            depth,
            content,
        })
    }
}

/// The bytes of the fixed fields of the visual sample entry `v`; the last
/// two (`pre_defined`) are 0xFF.
pub open spec fn visual_fixed_bytes(v: VisualSampleEntry) -> Seq<u8> {
    v.base.spec_bytes() + zeros(16) + u16_bytes(v.width) + u16_bytes(v.height)
        + u32_bytes(v.horizresolution.0) + u32_bytes(v.vertresolution.0) + zeros(4)
        + u16_bytes(v.frame_count) + v.compressorname.0@ + u16_bytes(v.depth) + seq![0xFFu8, 0xFFu8]
}

/// A visual sample entry with its known child boxes decoded.
#[derive(Debug, Clone)]
pub struct VisualSampleEntry {
    /// The fields common to all sample entries.
    pub base: SampleEntry,
    /// Width in pixels.
    pub width: u16,
    /// Height in pixels.
    pub height: u16,
    /// Horizontal resolution in pixels per inch (16.16 fixed-point).
    pub horizresolution: U16F16,
    /// Vertical resolution in pixels per inch (16.16 fixed-point).
    pub vertresolution: U16F16,
    /// Frames per sample (usually 1).
    pub frame_count: u16,
    /// The compressor name field.
    pub compressorname: CompressorName,
    /// Colour depth in bits; 0x0018 is colour without alpha.
    pub depth: u16,
    /// The Colour Information Box (`colr`), if any.
    pub colr: Option<ColrBox>,
    /// The Clean Aperture Box (`clap`), if any.
    pub clap: Option<ClapBox>,
    /// The Pixel Aspect Ratio Box (`pasp`), if any.
    pub pasp: Option<PaspBox>,
}

impl Default for VisualSampleEntry {
    /// Data reference 1, no size, 72 dpi both ways, one frame per sample, an
    /// empty compressor name, depth 24, no child boxes.
    fn default() -> (r: VisualSampleEntry)
        ensures
            r.base.data_reference_index == 1,
            r.width == 0,
            r.height == 0,
            r.horizresolution.0 == 0x0048_0000,
            r.vertresolution.0 == 0x0048_0000,
            r.frame_count == 1,
            r.compressorname.0@ == zeros(32),
            r.depth == 0x18,
            r.colr is None,
            r.clap is None,
            r.pasp is None,
    {
        let raw = [0u8; 32];
        assert(raw@ =~= zeros(32));
        VisualSampleEntry {
            base: SampleEntry { data_reference_index: 1 },
            width: 0,
            height: 0,
            horizresolution: U16F16::from_raw(0x0048_0000),
            vertresolution: U16F16::from_raw(0x0048_0000),
            frame_count: 1,
            compressorname: CompressorName::from_raw(raw),
            depth: 0x18,
            colr: None,
            clap: None,
            pasp: None,
        }
    }
}

/// The type codes of the child boxes a visual sample entry decodes.
pub open spec fn visual_known() -> Seq<u32> {
    seq![BoxType::COLR.code(), BoxType::CLAP.code(), BoxType::PASP.code()]
}

/// Whether the child boxes `bs` make an owned visual sample entry: at most one
/// each of `colr`, `clap` and `pasp`, each decoding.
pub open spec fn visual_children_ok(bs: Seq<Seq<u8>>) -> bool {
    &&& count_code(bs, BoxType::COLR.code()) <= 1
    &&& all_accepted::<ColrBox>(payloads_of(bs, BoxType::COLR.code()))
    &&& count_code(bs, BoxType::CLAP.code()) <= 1
    &&& all_accepted::<ClapBox>(payloads_of(bs, BoxType::CLAP.code()))
    &&& count_code(bs, BoxType::PASP.code()) <= 1
    &&& all_accepted::<PaspBox>(payloads_of(bs, BoxType::PASP.code()))
}

/// Whether the child boxes of `v` are what the child boxes `bs` decode to.
pub open spec fn visual_children_decode(bs: Seq<Seq<u8>>, v: VisualSampleEntry) -> bool {
    &&& opt_decoded::<ColrBox>(payloads_of(bs, BoxType::COLR.code()), v.colr)
    &&& opt_decoded::<ClapBox>(payloads_of(bs, BoxType::CLAP.code()), v.clap)
    &&& opt_decoded::<PaspBox>(payloads_of(bs, BoxType::PASP.code()), v.pasp)
}

/// The child boxes of a visual sample entry gathered so far.
struct VisualParts<'a> {
    colr: Option<ColrBox>,
    clap: Option<ClapBox>,
    pasp: Option<PaspBox>,
    rest: Vec<RawBoxRef<'a>>,
}

impl<'a> VisualParts<'a> {
    /// The children gathered from the child boxes `done`.
    closed spec fn inv(&self, done: Seq<Seq<u8>>) -> bool {
        &&& slot::<ColrBox>(done, BoxType::COLR.code(), self.colr)
        &&& slot::<ClapBox>(done, BoxType::CLAP.code(), self.clap)
        &&& slot::<PaspBox>(done, BoxType::PASP.code(), self.pasp)
        &&& refs_bytes(self.rest@) == others_of(done, visual_known())
        &&& refs_ok(self.rest@)
    }

    /// How many boxes of each type that occurs once the gathered children came from.
    proof fn lemma_counts(&self, done: Seq<Seq<u8>>)
        requires
            self.inv(done),
        ensures
            (self.colr is None) == (count_code(done, BoxType::COLR.code()) == 0),
            (self.clap is None) == (count_code(done, BoxType::CLAP.code()) == 0),
            (self.pasp is None) == (count_code(done, BoxType::PASP.code()) == 0),
    {
        lemma_slot_unfold::<ColrBox>(done, BoxType::COLR.code(), self.colr);
        lemma_payloads_count(done, BoxType::COLR.code());
        lemma_slot_unfold::<ClapBox>(done, BoxType::CLAP.code(), self.clap);
        lemma_payloads_count(done, BoxType::CLAP.code());
        lemma_slot_unfold::<PaspBox>(done, BoxType::PASP.code(), self.pasp);
        lemma_payloads_count(done, BoxType::PASP.code());
    }

    /// Nothing gathered from no boxes.
    fn new() -> (r: VisualParts<'a>)
        ensures
            r.inv(Seq::empty()),
    {
        proof {
            lemma_slot_empty::<ColrBox>(BoxType::COLR.code());
            lemma_slot_empty::<ClapBox>(BoxType::CLAP.code());
            lemma_slot_empty::<PaspBox>(BoxType::PASP.code());
        }
        let r = VisualParts { colr: None, clap: None, pasp: None, rest: Vec::new() };
        assert(refs_bytes(r.rest@) =~= others_of(Seq::empty(), visual_known()));
        r
    }

    /// A box of another type is kept among the rest.
    fn push_rest(&mut self, b: RawBoxRef<'a>, Ghost(done): Ghost<Seq<Seq<u8>>>)
        requires
            old(self).inv(done),
            ref_ok(b),
            box_code(b.data@) != BoxType::COLR.code(),
            box_code(b.data@) != BoxType::CLAP.code(),
            box_code(b.data@) != BoxType::PASP.code(),
        ensures
            final(self).inv(done.push(b.data@)),
    {
        proof {
            let bb = b.data@;
            lemma_slot_other::<ColrBox>(done, bb, BoxType::COLR.code(), self.colr);
            lemma_slot_other::<ClapBox>(done, bb, BoxType::CLAP.code(), self.clap);
            lemma_slot_other::<PaspBox>(done, bb, BoxType::PASP.code(), self.pasp);
            lemma_contains3(BoxType::COLR.code(), BoxType::CLAP.code(), BoxType::PASP.code(), box_code(bb));
            lemma_others_push(done, bb, visual_known());
            lemma_refs_push(self.rest@, b);
        }
        let ghost before = self.rest@;
        self.rest.push(b);
        assert(forall|i: int| 0 <= i < before.len() ==> self.rest@[i] == before[i]);
    }

    /// Gathers the `colr` box `bb`, the first of its kind.
    fn put_colr(&mut self, x: ColrBox, Ghost(done): Ghost<Seq<Seq<u8>>>, Ghost(bb): Ghost<Seq<u8>>)
        requires
            old(self).inv(done),
            old(self).colr is None,
            box_code(bb) == BoxType::COLR.code(),
            ColrBox::spec_accepts(box_payload(bb)),
            ColrBox::spec_decodes(box_payload(bb), x),
        ensures
            final(self).inv(done.push(bb)),
    {
        proof {
            lemma_slot_unfold::<ColrBox>(done, BoxType::COLR.code(), old(self).colr);
            lemma_payloads_count(done, BoxType::COLR.code());
            lemma_slot_fill::<ColrBox>(done, bb, BoxType::COLR.code(), x);
            lemma_slot_other::<ClapBox>(done, bb, BoxType::CLAP.code(), old(self).clap);
            lemma_slot_other::<PaspBox>(done, bb, BoxType::PASP.code(), old(self).pasp);
            lemma_contains3(BoxType::COLR.code(), BoxType::CLAP.code(), BoxType::PASP.code(), box_code(bb));
            lemma_others_push(done, bb, visual_known());
        }
        self.colr = Some(x);
    }

    /// Gathers the `clap` box `bb`, the first of its kind.
    fn put_clap(&mut self, x: ClapBox, Ghost(done): Ghost<Seq<Seq<u8>>>, Ghost(bb): Ghost<Seq<u8>>)
        requires
            old(self).inv(done),
            old(self).clap is None,
            box_code(bb) == BoxType::CLAP.code(),
            ClapBox::spec_accepts(box_payload(bb)),
            ClapBox::spec_decodes(box_payload(bb), x),
        ensures
            final(self).inv(done.push(bb)),
    {
        proof {
            lemma_slot_unfold::<ClapBox>(done, BoxType::CLAP.code(), old(self).clap);
            lemma_payloads_count(done, BoxType::CLAP.code());
            lemma_slot_fill::<ClapBox>(done, bb, BoxType::CLAP.code(), x);
            lemma_slot_other::<ColrBox>(done, bb, BoxType::COLR.code(), old(self).colr);
            lemma_slot_other::<PaspBox>(done, bb, BoxType::PASP.code(), old(self).pasp);
            lemma_contains3(BoxType::COLR.code(), BoxType::CLAP.code(), BoxType::PASP.code(), box_code(bb));
            lemma_others_push(done, bb, visual_known());
        }
        self.clap = Some(x);
    }

    /// Gathers the `pasp` box `bb`, the first of its kind.
    fn put_pasp(&mut self, x: PaspBox, Ghost(done): Ghost<Seq<Seq<u8>>>, Ghost(bb): Ghost<Seq<u8>>)
        requires
            old(self).inv(done),
            old(self).pasp is None,
            box_code(bb) == BoxType::PASP.code(),
            PaspBox::spec_accepts(box_payload(bb)),
            PaspBox::spec_decodes(box_payload(bb), x),
        ensures
            final(self).inv(done.push(bb)),
    {
        proof {
            lemma_slot_unfold::<PaspBox>(done, BoxType::PASP.code(), old(self).pasp);
            lemma_payloads_count(done, BoxType::PASP.code());
            lemma_slot_fill::<PaspBox>(done, bb, BoxType::PASP.code(), x);
            lemma_slot_other::<ColrBox>(done, bb, BoxType::COLR.code(), old(self).colr);
            lemma_slot_other::<ClapBox>(done, bb, BoxType::CLAP.code(), old(self).clap);
            lemma_contains3(BoxType::COLR.code(), BoxType::CLAP.code(), BoxType::PASP.code(), box_code(bb));
            lemma_others_push(done, bb, visual_known());
        }
        self.pasp = Some(x);
    }

    /// A second box of a type that occurs once makes the children no visual sample entry.
    proof fn lemma_dup(&self, done: Seq<Seq<u8>>, bb: Seq<u8>, after: Seq<Seq<u8>>)
        requires
            self.inv(done),
            (box_code(bb) == BoxType::COLR.code() && self.colr is Some)
                || (box_code(bb) == BoxType::CLAP.code() && self.clap is Some)
                || (box_code(bb) == BoxType::PASP.code() && self.pasp is Some),
        ensures
            !visual_children_ok(done.push(bb) + after),
    {
        lemma_slot_unfold::<ColrBox>(done, BoxType::COLR.code(), self.colr);
        lemma_slot_unfold::<ClapBox>(done, BoxType::CLAP.code(), self.clap);
        lemma_slot_unfold::<PaspBox>(done, BoxType::PASP.code(), self.pasp);
        let c = box_code(bb);
        lemma_payloads_count(done, c);
        lemma_children_push(done, bb, c);
        lemma_count_grows(done.push(bb), after, c);
    }

    /// What the child boxes `done` make.
    proof fn lemma_finish(&self, done: Seq<Seq<u8>>)
        requires
            self.inv(done),
        ensures
            visual_children_ok(done),
            opt_decoded::<ColrBox>(payloads_of(done, BoxType::COLR.code()), self.colr),
            opt_decoded::<ClapBox>(payloads_of(done, BoxType::CLAP.code()), self.clap),
            opt_decoded::<PaspBox>(payloads_of(done, BoxType::PASP.code()), self.pasp),
            refs_bytes(self.rest@) == others_of(done, visual_known()),
            refs_ok(self.rest@),
    {
        lemma_slot_unfold::<ColrBox>(done, BoxType::COLR.code(), self.colr);
        lemma_slot_unfold::<ClapBox>(done, BoxType::CLAP.code(), self.clap);
        lemma_slot_unfold::<PaspBox>(done, BoxType::PASP.code(), self.pasp);
    }
}

/// A payload of type `c` that does not decode makes the children no sample entry.
proof fn reject_proof<'de, T: BoxDecode<'de>>(done: Seq<Seq<u8>>, bb: Seq<u8>, after: Seq<Seq<u8>>, c: u32)
    requires
        box_code(bb) == c,
        !T::spec_accepts(box_payload(bb)),
    ensures
        !all_accepted::<T>(payloads_of(done.push(bb) + after, c)),
{
    lemma_children_push(done, bb, c);
    let ps = payloads_of(done.push(bb), c);
    assert(ps[ps.len() - 1] == box_payload(bb));
    lemma_rejected_stays::<T>(done.push(bb), after, c);
}

/// Whether every `colr`, `clap` and `pasp` child among `bs` decodes.
pub open spec fn visual_known_accepted(bs: Seq<Seq<u8>>) -> bool {
    &&& all_accepted::<ColrBox>(payloads_of(bs, BoxType::COLR.code()))
    &&& all_accepted::<ClapBox>(payloads_of(bs, BoxType::CLAP.code()))
    &&& all_accepted::<PaspBox>(payloads_of(bs, BoxType::PASP.code()))
}

impl VisualSampleEntry {
    /// The owned sample entry of a view, with the child boxes it does not
    /// decode handed back in order; an error for a malformed child box, a
    /// `colr`, `clap` or `pasp` box that does not decode, or a second one of them.
    pub fn try_parse_view<'a>(view: &VisualSampleEntryView<'a>) -> (r: Result<(VisualSampleEntry, Vec<RawBoxRef<'a>>), Error>)
        ensures
            spec_children_ok(view.content@) && visual_known_accepted(spec_children(view.content@)) ==> (first_dup(
                spec_children(view.content@),
                visual_known(),
            ) matches Some(d) ==> is_duplicate_error(r, d, None::<BoxType>)),
            (r is Ok) == (spec_children_ok(view.content@) && visual_children_ok(spec_children(view.content@))),
            r matches Ok((v, rest)) ==> {
                &&& v.base == view.base
                &&& v.width == view.width
                &&& v.height == view.height
                &&& v.horizresolution == view.horizresolution
                &&& v.vertresolution == view.vertresolution
                &&& v.frame_count == view.frame_count
                &&& v.compressorname == view.compressorname
                &&& v.depth == view.depth
                &&& visual_children_decode(spec_children(view.content@), v)
                &&& refs_bytes(rest@) == others_of(spec_children(view.content@), visual_known())
                &&& refs_ok(rest@)
            },
    {
        let mut parts = VisualParts::new();
        let mut it = view.boxes_in();
        let ghost mut done: Seq<Seq<u8>> = Seq::empty();
        loop
            invariant_except_break
                it.data@ == view.content@,
                it.pos <= it.data@.len(),
                spec_children(view.content@) == done + spec_children(it.rest()),
                spec_children_ok(view.content@) == spec_children_ok(it.rest()),
                parts.inv(done),
                first_dup(done, visual_known()) is None,
            ensures
                spec_children_ok(view.content@),
                spec_children(view.content@) == done,
                parts.inv(done),
                first_dup(done, visual_known()) is None,
            decreases it.data@.len() - it.pos,
        {
            let ghost rest = it.rest();
            match it.next() {
                None => {
                    assert(done + Seq::<Seq<u8>>::empty() =~= done);
                    break;
                },
                Some(Err(e)) => {
                    return Err(e);
                },
                Some(Ok(b)) => {
                    let ghost bb = b.data@;
                    let t = b.boxtype();
                    let code = t.type_field().0;
                    proof {
                        lemma_children_step(rest);
                        lemma_box_len_bounds(rest);
                        assert(done.push(bb) + spec_children(it.rest()) =~= done + (seq![rest.take(spec_box_len(rest)->0)] + spec_children(rest.skip(spec_box_len(rest)->0))));
                        assert(box_payload(bb) =~= b.spec_payload());
                        assert(box_code(bb) == code);
                        parts.lemma_counts(done);
                        lemma_contains3(BoxType::COLR.code(), BoxType::CLAP.code(), BoxType::PASP.code(), code);
                        lemma_first_dup_push(done, bb, visual_known());
                        assert(spec_children(view.content@) == done.push(bb) + spec_children(it.rest()));
                        if first_dup(done.push(bb), visual_known()) is Some {
                            lemma_first_dup_prefix(done.push(bb), spec_children(it.rest()), visual_known());
                        }
                    }
                    if code == BoxType::COLR.type_field().0 {
                        if parts.colr.is_some() {
                            proof {
                                parts.lemma_dup(done, bb, spec_children(it.rest()));
                            }
                            return Err(Error::new(ErrorKind::BoxDuplicate { duplicate: BoxType::COLR }));
                        }
                        let x = match ColrBox::decode(b.payload()) {
                            Ok(x) => x,
                            Err(e) => {
                                proof {
                                    reject_proof::<ColrBox>(done, bb, spec_children(it.rest()), BoxType::COLR.code());
                                }
                                return Err(e);
                            },
                        };
                        parts.put_colr(x, Ghost(done), Ghost(bb));
                    } else if code == BoxType::CLAP.type_field().0 {
                        if parts.clap.is_some() {
                            proof {
                                parts.lemma_dup(done, bb, spec_children(it.rest()));
                            }
                            return Err(Error::new(ErrorKind::BoxDuplicate { duplicate: BoxType::CLAP }));
                        }
                        let x = match ClapBox::decode(b.payload()) {
                            Ok(x) => x,
                            Err(e) => {
                                proof {
                                    reject_proof::<ClapBox>(done, bb, spec_children(it.rest()), BoxType::CLAP.code());
                                }
                                return Err(e);
                            },
                        };
                        parts.put_clap(x, Ghost(done), Ghost(bb));
                    } else if code == BoxType::PASP.type_field().0 {
                        if parts.pasp.is_some() {
                            proof {
                                parts.lemma_dup(done, bb, spec_children(it.rest()));
                            }
                            return Err(Error::new(ErrorKind::BoxDuplicate { duplicate: BoxType::PASP }));
                        }
                        let x = match PaspBox::decode(b.payload()) {
                            Ok(x) => x,
                            Err(e) => {
                                proof {
                                    reject_proof::<PaspBox>(done, bb, spec_children(it.rest()), BoxType::PASP.code());
                                }
                                return Err(e);
                            },
                        };
                        parts.put_pasp(x, Ghost(done), Ghost(bb));
                    } else {
                        assert(ref_ok(b));
                        parts.push_rest(b, Ghost(done));
                    }
                    proof {
                        done = done.push(bb);
                    }
                },
            }
        }
        proof {
            parts.lemma_finish(done);
        }
        let VisualParts { colr, clap, pasp, rest } = parts;
        Ok((VisualSampleEntry {
            base: view.base,
            width: view.width,
            height: view.height,
            horizresolution: view.horizresolution,
            vertresolution: view.vertresolution,
            frame_count: view.frame_count,
            compressorname: view.compressorname,
            depth: view.depth,
            colr,
            clap,
            pasp,
        }, rest))
    }

    /// The bytes this sample entry encodes to: the fixed fields, then the
    /// `colr`, `clap` and `pasp` boxes that are present, in that order.
    pub open spec fn spec_encode(&self) -> Seq<u8> {
        visual_fixed_bytes(*self) + spec_opt_boxed(self.colr) + spec_opt_boxed(self.clap) + spec_opt_boxed(self.pasp)
    }

    /// Whether this sample entry can be encoded.
    pub open spec fn spec_encodable(&self) -> bool {
        &&& spec_opt_encodable(self.colr)
        &&& spec_opt_encodable(self.clap)
        &&& spec_opt_encodable(self.pasp)
        &&& self.spec_encode().len() <= usize::MAX
    }

    /// The length of the encoding (saturating at `usize::MAX`).
    pub fn encode_len(&self) -> (r: usize)
        ensures
            self.spec_encodable() ==> r == self.spec_encode().len(),
    {
        let ghost l1 = spec_opt_boxed(self.colr).len();
        let ghost l2 = spec_opt_boxed(self.clap).len();
        let ghost l3 = spec_opt_boxed(self.pasp).len();
        assert(visual_fixed_bytes(*self).len() == 78);
        assert(self.spec_encode().len() == 78 + l1 + l2 + l3);
        let a = opt_boxed_len(&self.colr);
        let b = opt_boxed_len(&self.clap);
        let c = opt_boxed_len(&self.pasp);
        if a > usize::MAX - 78 {
            return usize::MAX;
        }
        if b > usize::MAX - 78 - a {
            return usize::MAX;
        }
        if c > usize::MAX - 78 - a - b {
            return usize::MAX;
        }
        78 + a + b + c
    }

    /// Writes the encoding into `buf` at `pos`, and returns the position after it.
    #[verifier::spinoff_prover]
    #[verifier::rlimit(60)]
    pub fn write_in(&self, buf: &mut [u8], pos: usize) -> (r: Result<usize, Error>)
        requires
            pos <= old(buf)@.len(),
        ensures
            final(buf)@.len() == old(buf)@.len(),
            (r is Ok) == (spec_opt_encodable(self.colr) && spec_opt_encodable(self.clap) && spec_opt_encodable(self.pasp)
                && pos + self.spec_encode().len() <= old(buf)@.len()),
            r matches Ok(p) ==> p == pos + self.spec_encode().len() && final(buf)@ == splice(old(buf)@, pos as int, self.spec_encode()),
    {
        let ghost s0 = buf@;
        let ghost f0 = self.base.spec_bytes();
        let ghost f1 = f0 + zeros(16);
        let ghost f2 = f1 + u16_bytes(self.width);
        let ghost f3 = f2 + u16_bytes(self.height);
        let ghost f4 = f3 + u32_bytes(self.horizresolution.0);
        let ghost f5 = f4 + u32_bytes(self.vertresolution.0);
        let ghost f6 = f5 + zeros(4);
        let ghost f7 = f6 + u16_bytes(self.frame_count);
        let ghost f8 = f7 + self.compressorname.0@;
        let ghost f9 = f8 + u16_bytes(self.depth);
        let ghost f10 = f9 + seq![0xFFu8, 0xFFu8];
        let ghost f11 = f10 + spec_opt_boxed(self.colr);
        let ghost f12 = f11 + spec_opt_boxed(self.clap);
        let ghost f13 = f12 + spec_opt_boxed(self.pasp);
        assert(f10 == visual_fixed_bytes(*self));
        assert(f13 == self.spec_encode());
        assert(f10.len() == 78);
        if buf.len() - pos < 78 {
            return Err(crate::codec::short_buffer(78, buf.len() - pos));
        }
        let p = self.base.write_in(buf, pos)?;
        let p = put_zeros(buf, p, 16)?;
        proof {
            assert(zeros(16) =~= Seq::new(16nat, |i: int| 0u8));
            lemma_splice_concat(s0, pos as int, f0, zeros(16));
        }
        let p = put_u16(buf, p, self.width)?;
        proof { lemma_splice_concat(s0, pos as int, f1, u16_bytes(self.width)); }
        let p = put_u16(buf, p, self.height)?;
        proof { lemma_splice_concat(s0, pos as int, f2, u16_bytes(self.height)); }
        let p = put_u32(buf, p, self.horizresolution.0)?;
        proof { lemma_splice_concat(s0, pos as int, f3, u32_bytes(self.horizresolution.0)); }
        let p = put_u32(buf, p, self.vertresolution.0)?;
        proof { lemma_splice_concat(s0, pos as int, f4, u32_bytes(self.vertresolution.0)); }
        let p = put_zeros(buf, p, 4)?;
        proof {
            assert(zeros(4) =~= Seq::new(4nat, |i: int| 0u8));
            lemma_splice_concat(s0, pos as int, f5, zeros(4));
        }
        let p = put_u16(buf, p, self.frame_count)?;
        proof { lemma_splice_concat(s0, pos as int, f6, u16_bytes(self.frame_count)); }
        let name = self.compressorname.0.as_slice();
        let p = put_slice(buf, p, name)?;
        proof { lemma_splice_concat(s0, pos as int, f7, self.compressorname.0@); }
        let p = put_u16(buf, p, self.depth)?;
        proof { lemma_splice_concat(s0, pos as int, f8, u16_bytes(self.depth)); }
        let p = put_u16(buf, p, 0xFFFF)?;
        proof {
            assert(u16_bytes(0xFFFF) =~= seq![0xFFu8, 0xFFu8]);
            lemma_splice_concat(s0, pos as int, f9, seq![0xFFu8, 0xFFu8]);
        }
        let w = write_opt_box_at(buf, p, &self.colr);
        let p = match w {
            Ok(q) => q,
            Err(e) => {
                return Err(e);
            },
        };
        proof { lemma_splice_concat(s0, pos as int, f10, spec_opt_boxed(self.colr)); }
        let w = write_opt_box_at(buf, p, &self.clap);
        let p = match w {
            Ok(q) => q,
            Err(e) => {
                return Err(e);
            },
        };
        proof { lemma_splice_concat(s0, pos as int, f11, spec_opt_boxed(self.clap)); }
        let w = write_opt_box_at(buf, p, &self.pasp);
        let p = match w {
            Ok(q) => q,
            Err(e) => {
                return Err(e);
            },
        };
        proof { lemma_splice_concat(s0, pos as int, f12, spec_opt_boxed(self.pasp)); }
        Ok(p)
    }
}

/// Reading back what a visual sample entry encodes to gives its fields, and
/// the `colr`, `clap` and `pasp` boxes as the child boxes.
#[verifier::rlimit(40)]
pub proof fn lemma_visual_encode_parse<'a>(v: VisualSampleEntry, w: VisualSampleEntryView<'a>)
    requires
        visual_view_of(v.spec_encode(), w),
    ensures
        v.spec_encode().len() >= visual_fixed_len(),
        w.base == v.base,
        w.width == v.width,
        w.height == v.height,
        w.horizresolution == v.horizresolution,
        w.vertresolution == v.vertresolution,
        w.frame_count == v.frame_count,
        w.compressorname == v.compressorname,
        w.depth == v.depth,
        w.content@ == spec_opt_boxed(v.colr) + spec_opt_boxed(v.clap) + spec_opt_boxed(v.pasp),
{
    let e = v.spec_encode();
    let kids = spec_opt_boxed(v.colr) + spec_opt_boxed(v.clap) + spec_opt_boxed(v.pasp);
    let f0 = v.base.spec_bytes();
    let f1 = f0 + zeros(16);
    let f2 = f1 + u16_bytes(v.width);
    let f3 = f2 + u16_bytes(v.height);
    let f4 = f3 + u32_bytes(v.horizresolution.0);
    let f5 = f4 + u32_bytes(v.vertresolution.0);
    let f6 = f5 + zeros(4);
    let f7 = f6 + u16_bytes(v.frame_count);
    let f8 = f7 + v.compressorname.0@;
    let f9 = f8 + u16_bytes(v.depth);
    let f10 = f9 + seq![0xFFu8, 0xFFu8];
    assert(e =~= f10 + kids);
    assert(f10.len() == 78);
    assert(be16(e, 6) == v.base.data_reference_index) by {
        lemma_be16_at(zeros(6), v.base.data_reference_index, e.skip(8));
        assert(zeros(6) + u16_bytes(v.base.data_reference_index) + e.skip(8) =~= e);
    }
    assert(be16(e, 24) == v.width) by {
        lemma_be16_at(f1, v.width, e.skip(26));
        assert(f1 + u16_bytes(v.width) + e.skip(26) =~= e);
    }
    assert(be16(e, 26) == v.height) by {
        lemma_be16_at(f2, v.height, e.skip(28));
        assert(f2 + u16_bytes(v.height) + e.skip(28) =~= e);
    }
    assert(be32(e, 28) == v.horizresolution.0) by {
        lemma_be32_at(f3, v.horizresolution.0, e.skip(32));
        assert(f3 + u32_bytes(v.horizresolution.0) + e.skip(32) =~= e);
    }
    assert(be32(e, 32) == v.vertresolution.0) by {
        lemma_be32_at(f4, v.vertresolution.0, e.skip(36));
        assert(f4 + u32_bytes(v.vertresolution.0) + e.skip(36) =~= e);
    }
    assert(be16(e, 40) == v.frame_count) by {
        lemma_be16_at(f6, v.frame_count, e.skip(42));
        assert(f6 + u16_bytes(v.frame_count) + e.skip(42) =~= e);
    }
    assert(be16(e, 74) == v.depth) by {
        lemma_be16_at(f8, v.depth, e.skip(76));
        assert(f8 + u16_bytes(v.depth) + e.skip(76) =~= e);
    }
    assert(w.compressorname.0 == v.compressorname.0) by {
        assert(e.subrange(42, 74) =~= v.compressorname.0@);
        assert(w.compressorname.0 =~= v.compressorname.0);
    }
    assert(e.skip(78) =~= kids);
}

/// The layout of a visual sample entry: data reference index at 6, width at 24, height at 26, resolutions at 28 and 32, frame count at 40, compressor name in bytes 42 to 74, depth at 74, child boxes from 78.
pub proof fn lemma_visual_view_layout<'a>(s: Seq<u8>, v: VisualSampleEntryView<'a>)
    requires
        visual_view_of(s, v),
    ensures
        v.base.data_reference_index == be16(s, 6),
        v.width == be16(s, 24),
        v.height == be16(s, 26),
        v.horizresolution.0 == be32(s, 28),
        v.vertresolution.0 == be32(s, 32),
        v.frame_count == be16(s, 40),
        v.compressorname.0@ == s.subrange(42, 74),
        v.depth == be16(s, 74),
        v.content@ == s.skip(78),
{
}

} // verus!
