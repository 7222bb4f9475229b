//! Audio sample entries (ISO/IEC 14496-12, 12.2): the fields every audio
//! codec's sample entry begins with, and its child boxes.
use vstd::prelude::*;

use crate::bytes::{be16, be32, u16_bytes, u32_bytes, lemma_be16_at, lemma_be32_at};
use crate::children::{first_dup, is_duplicate_error, lemma_first_dup_push, lemma_first_dup_prefix, ref_ok, refs_ok, decode_child, decode_all, optional_child, all_accepted, all_decoded, payloads_of, count_code, box_code, box_payload, slot, list_slot, opt_decoded, others_of, refs_bytes, lemma_others_push, lemma_refs_push, lemma_contains2, lemma_slot_other, lemma_slot_fill, lemma_list_other, lemma_list_push, lemma_children_push, lemma_children_step, lemma_count_grows, lemma_rejected_stays, lemma_payloads_count, lemma_slot_unfold, lemma_list_unfold, lemma_slot_empty};
use crate::codec::{BoxDecode, BoxEncode, spec_opt_boxed, spec_boxed_list, spec_opt_encodable, spec_list_encodable, opt_boxed_len, list_boxed_len, write_opt_box_at, write_box_list_at};
use crate::cursor::{ReadCursor, splice, put_zeros, put_u16, put_u32, lemma_splice_concat};
use crate::error::{Error, ErrorKind};
use crate::rawbox::{BoxIter, RawBoxRef, spec_children, spec_children_ok, spec_box_len, lemma_box_len_bounds};
use crate::types::{BoxType, U16F16};
use crate::boxes::chnl::{ChnlBox, ChnlBoxView};
use crate::boxes::dmix::{DmixBox, DmixBoxView};
use super::{SampleEntry, zeros};

verus! {

/// The size of the fixed fields of an audio sample entry.
pub open spec fn audio_fixed_len() -> int {
    28
}

/// Whether `v` holds the fields of the audio sample entry `s`: the sample
/// entry fields, eight reserved bytes, the channel count, the sample size,
/// four bytes of `pre_defined` and reserved, the 16.16 sample rate, and the
/// child boxes after them.
pub open spec fn audio_view_of<'a>(s: Seq<u8>, v: AudioSampleEntryView<'a>) -> bool {
    &&& v.base.data_reference_index == be16(s, 6)
    &&& v.channelcount == be16(s, 16)
    &&& v.samplesize == be16(s, 18)
    &&& v.samplerate.0 == be32(s, 24)
    &&& v.content@ == s.skip(28)
}

/// An audio sample entry over the bytes of its child boxes.
#[derive(Debug)]
pub struct AudioSampleEntryView<'a> {
    /// The fields common to all sample entries.
    pub base: SampleEntry,
    /// Number of audio channels (1 mono, 2 stereo, 6 for 5.1, ...).
    pub channelcount: u16,
    /// Bits per sample (typically 16).
    pub samplesize: u16,
    /// Sample rate in Hz, as a 16.16 fixed-point number.
    pub samplerate: U16F16,
    /// The child boxes.
    pub content: &'a [u8],
}

impl<'a> AudioSampleEntryView<'a> {
    /// The fields common to all sample entries.
    pub fn sample_entry(&self) -> (r: &SampleEntry)
        ensures
            *r == self.base,
    {
        &self.base
    }

    /// An iterator over the child boxes.
    pub fn boxes_in(&self) -> (r: BoxIter<'a>)
        ensures
            r.data@ == self.content@,
            r.pos == 0,
            r.rest() == self.content@,
    {
        BoxIter::new(self.content)
    }

    /// The Channel Layout Box (`chnl`), if any.
    pub fn chnl(&self) -> (r: Result<Option<ChnlBoxView<'a>>, Error>)
        ensures
            optional_child(self.content@, BoxType::CHNL, r),
    {
        decode_child(self.content, BoxType::CHNL)
    }

    /// Every Down Mix Instructions Box (`dmix`), in order; an error when a child
    /// box is malformed or one of them does not decode.
    pub fn dmixes(&self) -> (r: Result<Vec<DmixBoxView<'a>>, Error>)
        ensures
            (r is Ok) == (spec_children_ok(self.content@) && all_accepted::<DmixBoxView>(payloads_of(spec_children(self.content@), BoxType::DMIX.code()))),
            r matches Ok(v) ==> all_decoded(payloads_of(spec_children(self.content@), BoxType::DMIX.code()), v@),
    {
        decode_all(self.content, BoxType::DMIX)
    }

    /// Reads an audio sample entry from the rest of `cur`: its fixed fields,
    /// then everything after them as its child boxes.
    pub fn parse_in(cur: &mut ReadCursor<'a>) -> (r: Result<AudioSampleEntryView<'a>, Error>)
        requires
            old(cur).wf(),
        ensures
            final(cur).wf(),
            final(cur).bytes@ == old(cur).bytes@,
            old(cur).has(audio_fixed_len()) ==> (r matches Ok(v) && audio_view_of(old(cur).rest(), v))
                && final(cur).pos == final(cur).bytes@.len(),
            !old(cur).has(audio_fixed_len()) ==> r is Err,
    {
        let ghost s = old(cur).rest();
        let ghost p0 = old(cur).pos as int;
        let base = SampleEntry::parse_in(cur)?;
        cur.advance(8)?;
        let channelcount = cur.read_u16_be()?;
        let samplesize = cur.read_u16_be()?;
        cur.advance(4)?;
        let raw = cur.read_u32_be()?;
        let samplerate = U16F16::from_raw(raw);
        let n = cur.remaining();
        let content = cur.take(n)?;
        proof {
            let b = old(cur).bytes@;
            assert(be16(b, p0 + 16) == be16(s, 16));
            assert(be16(b, p0 + 18) == be16(s, 18));
            assert(be32(b, p0 + 24) == be32(s, 24));
            assert(content@ =~= s.skip(28));
        }
        Ok(AudioSampleEntryView { base, channelcount, samplesize, samplerate, content })
    }
}

/// The bytes of the fixed fields of an audio sample entry.
pub open spec fn audio_fixed_bytes(base: SampleEntry, channelcount: u16, samplesize: u16, samplerate: U16F16) -> Seq<u8> {
    base.spec_bytes() + zeros(8) + u16_bytes(channelcount) + u16_bytes(samplesize) + zeros(4) + u32_bytes(samplerate.0)
}

/// An audio sample entry with its known child boxes decoded.
#[derive(Debug, Clone)]
pub struct AudioSampleEntry {
    /// The fields common to all sample entries.
    pub base: SampleEntry,
    /// Number of audio channels (1 mono, 2 stereo, 6 for 5.1, ...).
    pub channelcount: u16,
    /// Bits per sample (typically 16).
    pub samplesize: u16,
    /// Sample rate in Hz, as a 16.16 fixed-point number.
    pub samplerate: U16F16,
    /// The Channel Layout Box (`chnl`), if any.
    pub chnl: Option<ChnlBox>,
    /// The Down Mix Instructions Boxes (`dmix`), in order.
    pub dmix: Vec<DmixBox>,
}

impl Default for AudioSampleEntry {
    /// Data reference 1, stereo, 16-bit samples at 44100 Hz, no child boxes.
    fn default() -> (r: AudioSampleEntry)
        ensures
            r.base.data_reference_index == 1,
            r.channelcount == 2,
            r.samplesize == 16,
            r.samplerate.0 == 44100 * 0x10000,
            r.chnl is None,
            r.dmix@.len() == 0,
    {
        AudioSampleEntry {
            base: SampleEntry { data_reference_index: 1 },
            channelcount: 2,
            samplesize: 16,
            samplerate: U16F16::from_raw(0xAC44_0000),
            chnl: None,
            dmix: Vec::new(),
        }
    }
}

/// The type codes of the child boxes an audio sample entry decodes.
pub open spec fn audio_known() -> Seq<u32> {
    seq![BoxType::CHNL.code(), BoxType::DMIX.code()]
}

/// Whether the child boxes `bs` make an owned audio sample entry: at most one
/// `chnl`, and every `chnl` and `dmix` decoding.
pub open spec fn audio_children_ok(bs: Seq<Seq<u8>>) -> bool {
    &&& count_code(bs, BoxType::CHNL.code()) <= 1
    &&& all_accepted::<ChnlBox>(payloads_of(bs, BoxType::CHNL.code()))
    &&& all_accepted::<DmixBox>(payloads_of(bs, BoxType::DMIX.code()))
}

/// Whether the child boxes of `v` are what the child boxes `bs` decode to.
pub open spec fn audio_children_decode(bs: Seq<Seq<u8>>, v: AudioSampleEntry) -> bool {
    &&& opt_decoded::<ChnlBox>(payloads_of(bs, BoxType::CHNL.code()), v.chnl)
    &&& all_decoded::<DmixBox>(payloads_of(bs, BoxType::DMIX.code()), v.dmix@)
}

/// The child boxes of an audio sample entry gathered so far.
struct AudioParts<'a> {
    chnl: Option<ChnlBox>,
    dmix: Vec<DmixBox>,
    rest: Vec<RawBoxRef<'a>>,
}

impl<'a> AudioParts<'a> {
    /// The children gathered from the child boxes `done`.
    closed spec fn inv(&self, done: Seq<Seq<u8>>) -> bool {
        &&& slot::<ChnlBox>(done, BoxType::CHNL.code(), self.chnl)
        &&& list_slot::<DmixBox>(done, BoxType::DMIX.code(), self.dmix@)
        &&& refs_bytes(self.rest@) == others_of(done, audio_known())
        &&& refs_ok(self.rest@)
    }

    /// How many boxes of each type that occurs once the gathered children came from.
    proof fn lemma_counts(&self, done: Seq<Seq<u8>>)
        requires
            self.inv(done),
        ensures
            (self.chnl is None) == (count_code(done, BoxType::CHNL.code()) == 0),
    {
        lemma_slot_unfold::<ChnlBox>(done, BoxType::CHNL.code(), self.chnl);
        lemma_payloads_count(done, BoxType::CHNL.code());
    }

    /// Nothing gathered from no boxes.
    fn new() -> (r: AudioParts<'a>)
        ensures
            r.inv(Seq::empty()),
    {
        proof {
            lemma_slot_empty::<ChnlBox>(BoxType::CHNL.code());
            lemma_slot_empty::<DmixBox>(BoxType::DMIX.code());
        }
        let r = AudioParts { chnl: None, dmix: Vec::new(), rest: Vec::new() };
        assert(refs_bytes(r.rest@) =~= others_of(Seq::empty(), audio_known()));
        r
    }

    /// A box of another type is kept among the rest.
    fn push_rest(&mut self, b: RawBoxRef<'a>, Ghost(done): Ghost<Seq<Seq<u8>>>)
        requires
            old(self).inv(done),
            ref_ok(b),
            box_code(b.data@) != BoxType::CHNL.code(),
            box_code(b.data@) != BoxType::DMIX.code(),
        ensures
            final(self).inv(done.push(b.data@)),
    {
        proof {
            let bb = b.data@;
            lemma_slot_other::<ChnlBox>(done, bb, BoxType::CHNL.code(), self.chnl);
            lemma_list_other::<DmixBox>(done, bb, BoxType::DMIX.code(), self.dmix@);
            lemma_contains2(BoxType::CHNL.code(), BoxType::DMIX.code(), box_code(bb));
            lemma_others_push(done, bb, audio_known());
            lemma_refs_push(self.rest@, b);
        }
        let ghost before = self.rest@;
        self.rest.push(b);
        assert(forall|i: int| 0 <= i < before.len() ==> self.rest@[i] == before[i]);
    }

    /// Gathers the `chnl` box `bb`, the first of its kind.
    fn put_chnl(&mut self, x: ChnlBox, Ghost(done): Ghost<Seq<Seq<u8>>>, Ghost(bb): Ghost<Seq<u8>>)
        requires
            old(self).inv(done),
            old(self).chnl is None,
            box_code(bb) == BoxType::CHNL.code(),
            ChnlBox::spec_accepts(box_payload(bb)),
            ChnlBox::spec_decodes(box_payload(bb), x),
        ensures
            final(self).inv(done.push(bb)),
    {
        proof {
            lemma_slot_unfold::<ChnlBox>(done, BoxType::CHNL.code(), old(self).chnl);
            lemma_payloads_count(done, BoxType::CHNL.code());
            lemma_slot_fill::<ChnlBox>(done, bb, BoxType::CHNL.code(), x);
            lemma_list_other::<DmixBox>(done, bb, BoxType::DMIX.code(), old(self).dmix@);
            lemma_contains2(BoxType::CHNL.code(), BoxType::DMIX.code(), box_code(bb));
            lemma_others_push(done, bb, audio_known());
        }
        self.chnl = Some(x);
    }

    /// A second `chnl` box after `done` makes the children no audio sample entry.
    proof fn lemma_dup_chnl(&self, done: Seq<Seq<u8>>, bb: Seq<u8>, after: Seq<Seq<u8>>)
        requires
            self.inv(done),
            self.chnl is Some,
            box_code(bb) == BoxType::CHNL.code(),
        ensures
            !audio_children_ok(done.push(bb) + after),
    {
        lemma_slot_unfold::<ChnlBox>(done, BoxType::CHNL.code(), self.chnl);
        lemma_payloads_count(done, BoxType::CHNL.code());
        lemma_children_push(done, bb, BoxType::CHNL.code());
        lemma_count_grows(done.push(bb), after, BoxType::CHNL.code());
    }

    /// Gathers the `dmix` box `bb`.
    fn push_dmix(&mut self, x: DmixBox, Ghost(done): Ghost<Seq<Seq<u8>>>, Ghost(bb): Ghost<Seq<u8>>)
        requires
            old(self).inv(done),
            box_code(bb) == BoxType::DMIX.code(),
            DmixBox::spec_accepts(box_payload(bb)),
            DmixBox::spec_decodes(box_payload(bb), x),
        ensures
            final(self).inv(done.push(bb)),
    {
        proof {
            lemma_list_push::<DmixBox>(done, bb, BoxType::DMIX.code(), old(self).dmix@, x);
            lemma_slot_other::<ChnlBox>(done, bb, BoxType::CHNL.code(), old(self).chnl);
            lemma_contains2(BoxType::CHNL.code(), BoxType::DMIX.code(), box_code(bb));
            lemma_others_push(done, bb, audio_known());
        }
        self.dmix.push(x);
    }

    /// What the child boxes `done` make.
    proof fn lemma_finish(&self, done: Seq<Seq<u8>>)
        requires
            self.inv(done),
        ensures
            audio_children_ok(done),
            opt_decoded::<ChnlBox>(payloads_of(done, BoxType::CHNL.code()), self.chnl),
            all_decoded::<DmixBox>(payloads_of(done, BoxType::DMIX.code()), self.dmix@),
            refs_bytes(self.rest@) == others_of(done, audio_known()),
            refs_ok(self.rest@),
    {
        lemma_slot_unfold::<ChnlBox>(done, BoxType::CHNL.code(), self.chnl);
        lemma_payloads_count(done, BoxType::CHNL.code());
        lemma_list_unfold::<DmixBox>(done, BoxType::DMIX.code(), self.dmix@);
    }
}

/// A payload of type `c` that does not decode makes the children no sample entry.
proof fn reject_proof<'de, T: BoxDecode<'de>>(done: Seq<Seq<u8>>, bb: Seq<u8>, after: Seq<Seq<u8>>, c: u32)
    requires
        box_code(bb) == c,
        !T::spec_accepts(box_payload(bb)),
    ensures
        !all_accepted::<T>(payloads_of(done.push(bb) + after, c)),
{
    lemma_children_push(done, bb, c);
    let ps = payloads_of(done.push(bb), c);
    assert(ps[ps.len() - 1] == box_payload(bb));
    lemma_rejected_stays::<T>(done.push(bb), after, c);
}

/// The code of the child of an audio sample entry that occurs once.
pub open spec fn audio_once() -> Seq<u32> {
    seq![BoxType::CHNL.code()]
}

/// Which codes are in [`audio_once`].
proof fn lemma_audio_once(c: u32)
    ensures
        audio_once().contains(c) == (c == BoxType::CHNL.code()),
{
    if c == BoxType::CHNL.code() {
        assert(audio_once()[0] == c);
    }
}

/// Whether every `chnl` and `dmix` child among `bs` decodes.
pub open spec fn audio_known_accepted(bs: Seq<Seq<u8>>) -> bool {
    &&& all_accepted::<ChnlBox>(payloads_of(bs, BoxType::CHNL.code()))
    &&& all_accepted::<DmixBox>(payloads_of(bs, BoxType::DMIX.code()))
}

impl AudioSampleEntry {
    /// The owned sample entry of a view, with the child boxes it does not
    /// decode handed back in order; an error for a malformed child box, a
    /// `chnl` or `dmix` box that does not decode, or a second `chnl` box.
    pub fn try_parse_view<'a>(view: &AudioSampleEntryView<'a>) -> (r: Result<(AudioSampleEntry, Vec<RawBoxRef<'a>>), Error>)
        ensures
            spec_children_ok(view.content@) && audio_known_accepted(spec_children(view.content@)) ==> (first_dup(
                spec_children(view.content@),
                audio_once(),
            ) matches Some(d) ==> is_duplicate_error(r, d, None::<BoxType>)),
            (r is Ok) == (spec_children_ok(view.content@) && audio_children_ok(spec_children(view.content@))),
            r matches Ok((v, rest)) ==> {
                &&& v.base == view.base
                &&& v.channelcount == view.channelcount
                &&& v.samplesize == view.samplesize
                &&& v.samplerate == view.samplerate
                &&& audio_children_decode(spec_children(view.content@), v)
                &&& refs_bytes(rest@) == others_of(spec_children(view.content@), audio_known())
                &&& refs_ok(rest@)
            },
    {
        let mut parts = AudioParts::new();
        let mut it = view.boxes_in();
        let ghost mut done: Seq<Seq<u8>> = Seq::empty();
        loop
            invariant_except_break
                it.data@ == view.content@,
                it.pos <= it.data@.len(),
                spec_children(view.content@) == done + spec_children(it.rest()),
                spec_children_ok(view.content@) == spec_children_ok(it.rest()),
                parts.inv(done),
                first_dup(done, audio_once()) is None,
            ensures
                spec_children_ok(view.content@),
                spec_children(view.content@) == done,
                parts.inv(done),
                first_dup(done, audio_once()) is None,
            decreases it.data@.len() - it.pos,
        {
            let ghost rest = it.rest();
            match it.next() {
                None => {
                    assert(done + Seq::<Seq<u8>>::empty() =~= done);
                    break;
                },
                Some(Err(e)) => {
                    return Err(e);
                },
                Some(Ok(b)) => {
                    let ghost bb = b.data@;
                    let t = b.boxtype();
                    let code = t.type_field().0;
                    proof {
                        lemma_children_step(rest);
                        lemma_box_len_bounds(rest);
                        assert(done.push(bb) + spec_children(it.rest()) =~= done + (seq![rest.take(spec_box_len(rest)->0)] + spec_children(rest.skip(spec_box_len(rest)->0))));
                        assert(box_payload(bb) =~= b.spec_payload());
                        assert(box_code(bb) == code);
                        parts.lemma_counts(done);
                        lemma_audio_once(code);
                        lemma_first_dup_push(done, bb, audio_once());
                        assert(spec_children(view.content@) == done.push(bb) + spec_children(it.rest()));
                        if first_dup(done.push(bb), audio_once()) is Some {
                            lemma_first_dup_prefix(done.push(bb), spec_children(it.rest()), audio_once());
                        }
                    }
                    if code == BoxType::CHNL.type_field().0 {
                        if parts.chnl.is_some() {
                            proof {
                                parts.lemma_dup_chnl(done, bb, spec_children(it.rest()));
                            }
                            return Err(Error::new(ErrorKind::BoxDuplicate { duplicate: BoxType::CHNL }));
                        }
                        let x = match ChnlBox::decode(b.payload()) {
                            Ok(x) => x,
                            Err(e) => {
                                proof {
                                    reject_proof::<ChnlBox>(done, bb, spec_children(it.rest()), BoxType::CHNL.code());
                                }
                                return Err(e);
                            },
                        };
                        parts.put_chnl(x, Ghost(done), Ghost(bb));
                    } else if code == BoxType::DMIX.type_field().0 {
                        let x = match DmixBox::decode(b.payload()) {
                            Ok(x) => x,
                            Err(e) => {
                                proof {
                                    reject_proof::<DmixBox>(done, bb, spec_children(it.rest()), BoxType::DMIX.code());
                                }
                                return Err(e);
                            },
                        };
                        parts.push_dmix(x, Ghost(done), Ghost(bb));
                    } else {
                        assert(ref_ok(b));
                        parts.push_rest(b, Ghost(done));
                    }
                    proof {
                        done = done.push(bb);
                    }
                },
            }
        }
        proof {
            parts.lemma_finish(done);
        }
        let AudioParts { chnl, dmix, rest } = parts;
        Ok((AudioSampleEntry {
            base: view.base,
            channelcount: view.channelcount,
            samplesize: view.samplesize,
            samplerate: view.samplerate,
            chnl,
            dmix,
        }, rest))
    }

    /// The bytes this sample entry encodes to: the fixed fields, then the
    /// `chnl` box if any, then the `dmix` boxes.
    pub open spec fn spec_encode(&self) -> Seq<u8> {
        audio_fixed_bytes(self.base, self.channelcount, self.samplesize, self.samplerate)
            + spec_opt_boxed(self.chnl) + spec_boxed_list(self.dmix@)
    }

    /// Whether this sample entry can be encoded.
    pub open spec fn spec_encodable(&self) -> bool {
        &&& spec_opt_encodable(self.chnl)
        &&& spec_list_encodable(self.dmix@)
        &&& self.spec_encode().len() <= usize::MAX
    }

    /// The length of the encoding (saturating at `usize::MAX`).
    pub fn encode_len(&self) -> (r: usize)
        ensures
            self.spec_encodable() ==> r == self.spec_encode().len(),
    {
        let ghost ok = self.spec_encodable();
        let ghost l1 = spec_opt_boxed(self.chnl).len();
        let ghost l2 = spec_boxed_list(self.dmix@).len();
        assert(self.spec_encode().len() == 28 + l1 + l2);
        let a = opt_boxed_len(&self.chnl);
        let b = list_boxed_len(&self.dmix);
        if a > usize::MAX - 28 {
            return usize::MAX;
        }
        if b > usize::MAX - 28 - a {
            return usize::MAX;
        }
        28 + a + b
    }

    /// Writes the encoding into `buf` at `pos`, and returns the position after it.
    pub fn write_in(&self, buf: &mut [u8], pos: usize) -> (r: Result<usize, Error>)
        requires
            pos <= old(buf)@.len(),
        ensures
            final(buf)@.len() == old(buf)@.len(),
            (r is Ok) == (spec_opt_encodable(self.chnl) && spec_list_encodable(self.dmix@) && pos + self.spec_encode().len() <= old(buf)@.len()),
            r matches Ok(p) ==> p == pos + self.spec_encode().len() && final(buf)@ == splice(old(buf)@, pos as int, self.spec_encode()),
    {
        let ghost s0 = buf@;
        let ghost f0 = self.base.spec_bytes();
        let ghost f1 = f0 + zeros(8);
        let ghost f2 = f1 + u16_bytes(self.channelcount);
        let ghost f3 = f2 + u16_bytes(self.samplesize);
        let ghost f4 = f3 + zeros(4);
        let ghost f5 = f4 + u32_bytes(self.samplerate.0);
        let ghost f6 = f5 + spec_opt_boxed(self.chnl);
        let ghost f7 = f6 + spec_boxed_list(self.dmix@);
        assert(f7 == self.spec_encode());
        if buf.len() - pos < 28 {
            return Err(crate::codec::short_buffer(28, buf.len() - pos));
        }
        let p = self.base.write_in(buf, pos)?;
        let p = put_zeros(buf, p, 8)?;
        proof {
            assert(zeros(8) =~= Seq::new(8nat, |i: int| 0u8));
            lemma_splice_concat(s0, pos as int, f0, zeros(8));
        }
        let p = put_u16(buf, p, self.channelcount)?;
        proof {
            lemma_splice_concat(s0, pos as int, f1, u16_bytes(self.channelcount));
        }
        let p = put_u16(buf, p, self.samplesize)?;
        proof {
            lemma_splice_concat(s0, pos as int, f2, u16_bytes(self.samplesize));
        }
        let p = put_zeros(buf, p, 4)?;
        proof {
            assert(zeros(4) =~= Seq::new(4nat, |i: int| 0u8));
            lemma_splice_concat(s0, pos as int, f3, zeros(4));
        }
        let p = put_u32(buf, p, self.samplerate.0)?;
        proof {
            lemma_splice_concat(s0, pos as int, f4, u32_bytes(self.samplerate.0));
        }
        let ghost s5 = buf@;
        let w = write_opt_box_at(buf, p, &self.chnl);
        let p = match w {
            Ok(q) => q,
            Err(e) => {
                return Err(e);
            },
        };
        proof {
            lemma_splice_concat(s0, pos as int, f5, spec_opt_boxed(self.chnl));
        }
        let w = write_box_list_at(buf, p, &self.dmix);
        let p = match w {
            Ok(q) => q,
            Err(e) => {
                return Err(e);
            },
        };
        proof {
            lemma_splice_concat(s0, pos as int, f6, spec_boxed_list(self.dmix@));
        }
        Ok(p)
    }
}

/// Reading back what an audio sample entry encodes to gives its fields, and
/// the `chnl` and `dmix` boxes as the child boxes.
pub proof fn lemma_audio_encode_parse<'a>(v: AudioSampleEntry, w: AudioSampleEntryView<'a>)
    requires
        audio_view_of(v.spec_encode(), w),
    ensures
        v.spec_encode().len() >= audio_fixed_len(),
        w.base == v.base,
        w.channelcount == v.channelcount,
        w.samplesize == v.samplesize,
        w.samplerate == v.samplerate,
        w.content@ == spec_opt_boxed(v.chnl) + spec_boxed_list(v.dmix@),
{
    let e = v.spec_encode();
    let kids = spec_opt_boxed(v.chnl) + spec_boxed_list(v.dmix@);
    let f0 = v.base.spec_bytes();
    let f1 = f0 + zeros(8);
    let f2 = f1 + u16_bytes(v.channelcount);
    let f3 = f2 + u16_bytes(v.samplesize);
    let f4 = f3 + zeros(4);
    let f5 = f4 + u32_bytes(v.samplerate.0);
    assert(e =~= f5 + kids);
    assert(f5.len() == 28);
    lemma_be16_at(zeros(6), v.base.data_reference_index, e.skip(8));
    assert(zeros(6) + u16_bytes(v.base.data_reference_index) + e.skip(8) =~= e);
    lemma_be16_at(f1, v.channelcount, e.skip(18));
    assert(f1 + u16_bytes(v.channelcount) + e.skip(18) =~= e);
    lemma_be16_at(f2, v.samplesize, e.skip(20));
    assert(f2 + u16_bytes(v.samplesize) + e.skip(20) =~= e);
    lemma_be32_at(f4, v.samplerate.0, kids);
    assert(e.skip(28) =~= kids);
}

/// The layout of an audio sample entry: data reference index at 6, channel count at 16, sample size at 18, sample rate (16.16) at 24, child boxes from 28.
pub proof fn lemma_audio_view_layout<'a>(s: Seq<u8>, v: AudioSampleEntryView<'a>)
    requires
        audio_view_of(s, v),
    ensures
        v.base.data_reference_index == be16(s, 6),
        v.channelcount == be16(s, 16),
        v.samplesize == be16(s, 18),
        v.samplerate.0 == be32(s, 24),
        v.content@ == s.skip(28),
{
}

} // verus!
