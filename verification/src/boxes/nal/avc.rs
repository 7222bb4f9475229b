//! AVC (H.264) sample entries (ISO/IEC 14496-15): `avc1` and `avc3` (and
//! `avc2` and `avc4`) extend the visual sample entry with the AVC
//! Configuration Box (`avcC`), required, and the MPEG-4 Extension
//! Descriptors Box (`m4ds`), optional.
use vstd::prelude::*;

use vstd::string::StringExecFns;

use core::marker::PhantomData;

use crate::children::{unique_child, decode_unique_child, decode_child, optional_child, required_child, all_accepted, payloads_of, count_code, box_code,
    box_payload, slot, opt_decoded, others_of, refs_bytes, ref_ok, refs_ok, lemma_slot_other, lemma_slot_fill,
    lemma_children_push, lemma_count_grows, lemma_rejected_stays, lemma_payloads_count, lemma_slot_unfold, lemma_slot_empty};
use crate::codec::{BoxCodec, BoxDecode, BoxEncode, spec_boxed, spec_opt_boxed, spec_opt_encodable, boxed_len, opt_boxed_len,
    write_box_at, write_opt_box_at, lemma_boxed_len};
use crate::cursor::{ReadCursor, splice, lemma_splice_concat};
use crate::error::{Error, ErrorKind};
use crate::rawbox::{BoxIter, RawBoxRef, Lookup, spec_find, spec_children, spec_children_ok};
use crate::types::BoxType;
use crate::boxes::sample_entry::visual::{VisualSampleEntryView, VisualSampleEntry, visual_view_of, visual_children_ok,
    visual_children_decode, visual_known, visual_fixed_len};
use crate::formats::mpeg4::codecs::avc::{AVCDecoderConfigurationRecordView, AVCDecoderConfigurationRecord, avc_record_of,
    avc_record_ok, ps_split, slices_view, vecs_view};
use crate::formats::mpeg4::systems::descriptor::{DescriptorIter, RawDescriptorOwned, spec_descriptors, spec_descriptors_ok,
    spec_descr_len, descr_tag, descr_instance, lemma_descriptors_step, lemma_descr_len_bounds, all_owned, owned_is,
    descrs_bytes, descrs_writable, descrs_len, write_descrs_at};

verus! {

/// AVC Configuration Box (`avcC`) over the bytes of its record.
#[derive(Debug)]
pub struct AvcCBoxView<'a> {
    /// The AVC Decoder Configuration Record.
    pub avc_config: AVCDecoderConfigurationRecordView<'a>,
}

impl BoxCodec for AvcCBoxView<'_> {
    open spec fn spec_boxtype(&self) -> BoxType {
        BoxType::AVCC
    }

    fn boxtype(&self) -> (r: BoxType) {
        BoxType::AVCC
    }
}

impl<'de> BoxDecode<'de> for AvcCBoxView<'de> {
    open spec fn spec_accepts(bytes: Seq<u8>) -> bool {
        avc_record_ok(bytes)
    }

    open spec fn spec_decodes(bytes: Seq<u8>, v: Self) -> bool {
        avc_record_of(bytes, v.avc_config)
    }

    fn decode(bytes: &'de [u8]) -> (r: Result<Self, Error>) {
        assert(Self::spec_accepts(bytes@) == avc_record_ok(bytes@));
        assert(forall|v: Self| #[trigger] Self::spec_decodes(bytes@, v) == avc_record_of(bytes@, v.avc_config));
        let avc_config = AVCDecoderConfigurationRecordView::parse(bytes)?;
        Ok(AvcCBoxView { avc_config })
    }
}

/// Whether the owned record `r` holds what the record `s` parses to.
pub open spec fn avc_owned_of(s: Seq<u8>, r: AVCDecoderConfigurationRecord) -> bool {
    &&& s.len() >= 6
    &&& r.configuration_version == s[0]
    &&& r.avc_profile_indication == s[1]
    &&& r.profile_compatibility == s[2]
    &&& r.avc_level_indication == s[3]
    &&& r.length_size_minus_one == s[4] % 4
    &&& ps_split(s.skip(6), (s[5] % 32) as nat) matches Some((sps, rest1))
    &&& vecs_view(r.sps@) == sps
    &&& rest1.len() >= 1
    &&& ps_split(rest1.skip(1), rest1[0] as nat) matches Some((pps, rest2))
    &&& vecs_view(r.pps@) == pps
    &&& r.ext@ == rest2
}

/// AVC Configuration Box (`avcC`) with its record held in memory.
#[derive(Debug, Clone)]
pub struct AvcCBox {
    /// The AVC Decoder Configuration Record.
    pub avc_config: AVCDecoderConfigurationRecord,
}

impl AvcCBoxView<'_> {
    /// An owned copy.
    pub fn to_owned(&self) -> (r: AvcCBox)
        ensures
            r.avc_config.configuration_version == self.avc_config.configuration_version,
            r.avc_config.avc_profile_indication == self.avc_config.avc_profile_indication,
            r.avc_config.profile_compatibility == self.avc_config.profile_compatibility,
            r.avc_config.avc_level_indication == self.avc_config.avc_level_indication,
            r.avc_config.length_size_minus_one == self.avc_config.length_size_minus_one,
            vecs_view(r.avc_config.sps@) == slices_view(self.avc_config.sps_list@),
            vecs_view(r.avc_config.pps@) == slices_view(self.avc_config.pps_list@),
            r.avc_config.ext@ == self.avc_config.ext@,
    {
        AvcCBox { avc_config: AVCDecoderConfigurationRecord::from_view(&self.avc_config) }
    }
}

impl BoxCodec for AvcCBox {
    open spec fn spec_boxtype(&self) -> BoxType {
        BoxType::AVCC
    }

    fn boxtype(&self) -> (r: BoxType) {
        BoxType::AVCC
    }
}

impl<'de> BoxDecode<'de> for AvcCBox {
    open spec fn spec_accepts(bytes: Seq<u8>) -> bool {
        avc_record_ok(bytes)
    }

    open spec fn spec_decodes(bytes: Seq<u8>, v: Self) -> bool {
        avc_owned_of(bytes, v.avc_config)
    }

    fn decode(bytes: &'de [u8]) -> (r: Result<Self, Error>) {
        assert(Self::spec_accepts(bytes@) == avc_record_ok(bytes@));
        assert(forall|v: Self| #[trigger] Self::spec_decodes(bytes@, v) == avc_owned_of(bytes@, v.avc_config));
        let view = AvcCBoxView::decode(bytes)?;
        Ok(view.to_owned())
    }
}

impl BoxEncode for AvcCBox {
    open spec fn spec_encode(&self) -> Seq<u8> {
        self.avc_config.spec_bytes()
    }

    open spec fn spec_encodable(&self) -> bool {
        self.avc_config.spec_writable() && self.avc_config.spec_bytes().len() <= usize::MAX
    }

    fn encoded_len(&self) -> (r: usize) {
        self.avc_config.encoded_len()
    }

    fn encode_into(&self, bytes: &mut [u8]) -> (r: Result<usize, Error>) {
        self.avc_config.write(bytes)
    }
}

/// MPEG-4 Extension Descriptors Box (`m4ds`) over the bytes of its descriptors.
#[derive(Debug)]
pub struct M4dsBoxView<'a> {
    /// The descriptors.
    pub content: &'a [u8],
}

impl<'a> M4dsBoxView<'a> {
    /// An iterator over the descriptors.
    pub fn descriptors(&self) -> (r: DescriptorIter<'a>)
        ensures
            r.data@ == self.content@,
            r.pos == 0,
            r.rest() == self.content@,
    {
        DescriptorIter::new(self.content)
    }
}

impl BoxCodec for M4dsBoxView<'_> {
    open spec fn spec_boxtype(&self) -> BoxType {
        BoxType::M4DS
    }

    fn boxtype(&self) -> (r: BoxType) {
        BoxType::M4DS
    }
}

impl<'de> BoxDecode<'de> for M4dsBoxView<'de> {
    open spec fn spec_accepts(bytes: Seq<u8>) -> bool {
        true
    }

    open spec fn spec_decodes(bytes: Seq<u8>, v: Self) -> bool {
        v.content@ == bytes
    }

    fn decode(bytes: &'de [u8]) -> (r: Result<Self, Error>) {
        Ok(M4dsBoxView { content: bytes })
    }
}

/// MPEG-4 Extension Descriptors Box (`m4ds`) with its descriptors held in memory.
#[derive(Debug, Clone)]
pub struct M4dsBox {
    /// The descriptors, in order.
    pub descriptors: Vec<RawDescriptorOwned>,
}

impl M4dsBox {
    /// The owned box of a view: a copy of every descriptor; an error for a
    /// malformed descriptor.
    pub fn try_from(view: &M4dsBoxView<'_>) -> (r: Result<M4dsBox, Error>)
        ensures
            (r is Ok) == spec_descriptors_ok(view.content@),
            r matches Ok(v) ==> all_owned(v.descriptors@, spec_descriptors(view.content@)),
    {
        let mut out: Vec<RawDescriptorOwned> = Vec::new();
        let mut it = view.descriptors();
        let ghost mut done: Seq<Seq<u8>> = Seq::empty();
        loop
            invariant_except_break
                it.data@ == view.content@,
                it.pos <= it.data@.len(),
                spec_descriptors(view.content@) == done + spec_descriptors(it.rest()),
                spec_descriptors_ok(view.content@) == spec_descriptors_ok(it.rest()),
                all_owned(out@, done),
            ensures
                spec_descriptors_ok(view.content@),
                spec_descriptors(view.content@) == done,
                all_owned(out@, done),
            decreases it.data@.len() - it.pos,
        {
            let ghost rest = it.rest();
            match it.next() {
                None => {
                    assert(done + Seq::<Seq<u8>>::empty() =~= done);
                    break;
                },
                Some(Err(e)) => {
                    return Err(e);
                },
                Some(Ok(d)) => {
                    let ghost n = spec_descr_len(rest)->0;
                    let ghost w = rest.take(n);
                    proof {
                        lemma_descriptors_step(rest);
                        lemma_descr_len_bounds(rest);
                        assert(done.push(w) + spec_descriptors(it.rest()) =~= done + (seq![w] + spec_descriptors(rest.skip(n))));
                    }
                    let ghost before = out@;
                    out.push(d.to_owned());
                    proof {
                        assert forall|i: int| 0 <= i < out@.len() implies #[trigger] owned_is(out@[i], done.push(w)[i]) by {
                            if i < before.len() {
                                assert(out@[i] == before[i]);
                            }
                        }
                        done = done.push(w);
                    }
                },
            }
        }
        Ok(M4dsBox { descriptors: out })
    }
}

impl BoxCodec for M4dsBox {
    open spec fn spec_boxtype(&self) -> BoxType {
        BoxType::M4DS
    }

    fn boxtype(&self) -> (r: BoxType) {
        BoxType::M4DS
    }
}

impl<'de> BoxDecode<'de> for M4dsBox {
    open spec fn spec_accepts(bytes: Seq<u8>) -> bool {
        spec_descriptors_ok(bytes)
    }

    open spec fn spec_decodes(bytes: Seq<u8>, v: Self) -> bool {
        all_owned(v.descriptors@, spec_descriptors(bytes))
    }

    fn decode(bytes: &'de [u8]) -> (r: Result<Self, Error>) {
        assert(Self::spec_accepts(bytes@) == spec_descriptors_ok(bytes@));
        assert(forall|v: Self| #[trigger] Self::spec_decodes(bytes@, v) == all_owned(v.descriptors@, spec_descriptors(bytes@)));
        let view = M4dsBoxView { content: bytes };
        M4dsBox::try_from(&view)
    }
}

impl BoxEncode for M4dsBox {
    open spec fn spec_encode(&self) -> Seq<u8> {
        descrs_bytes(self.descriptors@)
    }

    open spec fn spec_encodable(&self) -> bool {
        descrs_writable(self.descriptors@) && descrs_bytes(self.descriptors@).len() <= usize::MAX
    }

    fn encoded_len(&self) -> (r: usize) {
        descrs_len(&self.descriptors)
    }

    fn encode_into(&self, bytes: &mut [u8]) -> (r: Result<usize, Error>) {
        write_descrs_at(bytes, 0, &self.descriptors)
    }
}

/// The kind of an AVC sample entry: its box type and its name in a codec string.
pub trait AvcKind {
    /// The box type of the sample entry.
    spec fn spec_box_type() -> BoxType;

    /// The box type of the sample entry.
    fn box_type() -> (r: BoxType)
        ensures
            r == Self::spec_box_type(),
            r.wf(),
    ;

    /// The name of the sample entry in a codec string.
    spec fn spec_codec_name() -> Seq<char>;

    /// The name of the sample entry in a codec string.
    fn codec_name() -> (r: &'static str)
        ensures
            r@ == Self::spec_codec_name(),
    ;
}

/// Marker of the `avc1` sample entry: parameter sets in `avcC` only.
#[derive(Debug)]
pub struct Avc1;

/// Marker of the `avc3` sample entry: parameter sets may also be in band.
#[derive(Debug)]
pub struct Avc3;

/// Marker of the `avc2` sample entry.
#[derive(Debug)]
pub struct Avc2;

/// Marker of the `avc4` sample entry.
#[derive(Debug)]
pub struct Avc4;

impl AvcKind for Avc1 {
    open spec fn spec_box_type() -> BoxType {
        BoxType::AVC1
    }

    fn box_type() -> (r: BoxType) {
        BoxType::AVC1
    }

    open spec fn spec_codec_name() -> Seq<char> {
        seq!['a', 'v', 'c', '1']
    }

    fn codec_name() -> (r: &'static str) {
        proof {
            reveal_strlit("avc1");
        }
        "avc1"
    }
}

impl AvcKind for Avc3 {
    open spec fn spec_box_type() -> BoxType {
        BoxType::AVC3
    }

    fn box_type() -> (r: BoxType) {
        BoxType::AVC3
    }

    open spec fn spec_codec_name() -> Seq<char> {
        seq!['a', 'v', 'c', '3']
    }

    fn codec_name() -> (r: &'static str) {
        proof {
            reveal_strlit("avc3");
        }
        "avc3"
    }
}

impl AvcKind for Avc2 {
    open spec fn spec_box_type() -> BoxType {
        BoxType::AVC2
    }

    fn box_type() -> (r: BoxType) {
        BoxType::AVC2
    }

    open spec fn spec_codec_name() -> Seq<char> {
        seq!['a', 'v', 'c', '2']
    }

    fn codec_name() -> (r: &'static str) {
        proof {
            reveal_strlit("avc2");
        }
        "avc2"
    }
}

impl AvcKind for Avc4 {
    open spec fn spec_box_type() -> BoxType {
        BoxType::AVC4
    }

    fn box_type() -> (r: BoxType) {
        BoxType::AVC4
    }

    open spec fn spec_codec_name() -> Seq<char> {
        seq!['a', 'v', 'c', '4']
    }

    fn codec_name() -> (r: &'static str) {
        proof {
            reveal_strlit("avc4");
        }
        "avc4"
    }
}

/// The boxes that the visual sample entry with child boxes `content` leaves
/// to an AVC sample entry, in order.
pub open spec fn avc_rest(content: Seq<u8>) -> Seq<Seq<u8>> {
    others_of(spec_children(content), visual_known())
}

/// Whether the boxes `bs` make the child boxes of an AVC sample entry:
/// exactly one `avcC` and at most one `m4ds`, each decoding.
pub open spec fn avc_children_ok(bs: Seq<Seq<u8>>) -> bool {
    &&& count_code(bs, BoxType::AVCC.code()) == 1
    &&& all_accepted::<AvcCBox>(payloads_of(bs, BoxType::AVCC.code()))
    &&& count_code(bs, BoxType::M4DS.code()) <= 1
    &&& all_accepted::<M4dsBox>(payloads_of(bs, BoxType::M4DS.code()))
}

/// Whether the child boxes `content` of a visual sample entry make an AVC sample entry.
pub open spec fn avc_entry_ok(content: Seq<u8>) -> bool {
    &&& spec_children_ok(content)
    &&& visual_children_ok(spec_children(content))
    &&& avc_children_ok(avc_rest(content))
}

/// Whether `v` is the owned visual sample entry of `view`.
pub open spec fn visual_parsed<'a>(view: VisualSampleEntryView<'a>, v: VisualSampleEntry) -> bool {
    &&& v.base == view.base
    &&& v.width == view.width
    &&& v.height == view.height
    &&& v.horizresolution == view.horizresolution
    &&& v.vertresolution == view.vertresolution
    &&& v.frame_count == view.frame_count
    &&& v.compressorname == view.compressorname
    &&& v.depth == view.depth
    &&& visual_children_decode(spec_children(view.content@), v)
}

/// Whether `a` and `m` are the `avcC` and `m4ds` boxes of the child boxes `content`.
pub open spec fn avc_children_decode(content: Seq<u8>, a: AvcCBox, m: Option<M4dsBox>) -> bool {
    &&& AvcCBox::spec_decodes(payloads_of(avc_rest(content), BoxType::AVCC.code())[0], a)
    &&& opt_decoded::<M4dsBox>(payloads_of(avc_rest(content), BoxType::M4DS.code()), m)
}

/// A payload of type `c` that does not decode makes the boxes no AVC sample entry.
proof fn reject_proof<'de, T: BoxDecode<'de>>(done: Seq<Seq<u8>>, bb: Seq<u8>, after: Seq<Seq<u8>>, c: u32)
    requires
        box_code(bb) == c,
        !T::spec_accepts(box_payload(bb)),
    ensures
        !all_accepted::<T>(payloads_of(done.push(bb) + after, c)),
{
    lemma_children_push(done, bb, c);
    let ps = payloads_of(done.push(bb), c);
    assert(ps[ps.len() - 1] == box_payload(bb));
    lemma_rejected_stays::<T>(done.push(bb), after, c);
}

/// A second box of code `c` after `done` makes more than one of them.
proof fn dup_proof<'de, T: BoxDecode<'de>>(done: Seq<Seq<u8>>, bb: Seq<u8>, after: Seq<Seq<u8>>, c: u32, x: Option<T>)
    requires
        slot::<T>(done, c, x),
        x is Some,
        box_code(bb) == c,
    ensures
        count_code(done.push(bb) + after, c) > 1,
{
    lemma_slot_unfold::<T>(done, c, x);
    lemma_payloads_count(done, c);
    lemma_children_push(done, bb, c);
    lemma_count_grows(done.push(bb), after, c);
}

/// The visual sample entry of `view` and, from the boxes it leaves, the
/// `avcC` box and the `m4ds` box if any; an error when the visual sample
/// entry fails, or for a missing, repeated or undecodable `avcC` or a
/// repeated or undecodable `m4ds`.
fn avc_parts(view: &VisualSampleEntryView<'_>) -> (r: Result<(VisualSampleEntry, AvcCBox, Option<M4dsBox>), Error>)
    ensures
        (r is Ok) == avc_entry_ok(view.content@),
        r matches Ok((v, a, m)) ==> visual_parsed(*view, v) && avc_children_decode(view.content@, a, m),
{
    let (base, rest) = VisualSampleEntry::try_parse_view(view)?;
    let ghost bs = refs_bytes(rest@);
    let ghost c1 = BoxType::AVCC.code();
    let ghost c2 = BoxType::M4DS.code();
    let mut avcc: Option<AvcCBox> = None;
    let mut m4ds: Option<M4dsBox> = None;
    proof {
        lemma_slot_empty::<AvcCBox>(c1);
        lemma_slot_empty::<M4dsBox>(c2);
        assert(bs.take(0) =~= Seq::<Seq<u8>>::empty());
    }
    let mut i: usize = 0;
    while i < rest.len()
        invariant
            bs == refs_bytes(rest@),
            bs == avc_rest(view.content@),
            refs_ok(rest@),
            bs.len() == rest@.len(),
            i <= rest@.len(),
            c1 == BoxType::AVCC.code(),
            c2 == BoxType::M4DS.code(),
            slot::<AvcCBox>(bs.take(i as int), c1, avcc),
            slot::<M4dsBox>(bs.take(i as int), c2, m4ds),
        decreases rest@.len() - i,
    {
        let b = &rest[i];
        let ghost done = bs.take(i as int);
        let ghost bb = b.data@;
        let ghost after = bs.skip(i + 1);
        proof {
            assert(ref_ok(rest@[i as int]));
            assert(bs[i as int] == bb);
            assert(bs.take(i + 1) =~= done.push(bb));
            assert(done.push(bb) + after =~= bs);
        }
        let t = b.boxtype();
        let code = t.type_field().0;
        assert(box_code(bb) == code);
        if code == BoxType::AVCC.type_field().0 {
            if avcc.is_some() {
                proof {
                    dup_proof::<AvcCBox>(done, bb, after, c1, avcc);
                }
                return Err(Error::new(ErrorKind::BoxDuplicate { duplicate: BoxType::AVCC }));
            }
            let x = match AvcCBox::decode(b.payload()) {
                Ok(x) => x,
                Err(e) => {
                    proof {
                        reject_proof::<AvcCBox>(done, bb, after, c1);
                    }
                    return Err(e);
                },
            };
            proof {
                lemma_slot_unfold::<AvcCBox>(done, c1, avcc);
                lemma_payloads_count(done, c1);
                lemma_slot_fill::<AvcCBox>(done, bb, c1, x);
                lemma_slot_other::<M4dsBox>(done, bb, c2, m4ds);
            }
            avcc = Some(x);
        } else if code == BoxType::M4DS.type_field().0 {
            if m4ds.is_some() {
                proof {
                    dup_proof::<M4dsBox>(done, bb, after, c2, m4ds);
                }
                return Err(Error::new(ErrorKind::BoxDuplicate { duplicate: BoxType::M4DS }));
            }
            let x = match M4dsBox::decode(b.payload()) {
                Ok(x) => x,
                Err(e) => {
                    proof {
                        reject_proof::<M4dsBox>(done, bb, after, c2);
                    }
                    return Err(e);
                },
            };
            proof {
                lemma_slot_unfold::<M4dsBox>(done, c2, m4ds);
                lemma_payloads_count(done, c2);
                lemma_slot_fill::<M4dsBox>(done, bb, c2, x);
                lemma_slot_other::<AvcCBox>(done, bb, c1, avcc);
            }
            m4ds = Some(x);
        } else {
            proof {
                lemma_slot_other::<AvcCBox>(done, bb, c1, avcc);
                lemma_slot_other::<M4dsBox>(done, bb, c2, m4ds);
            }
        }
        i = i + 1;
    }
    proof {
        assert(bs.take(i as int) =~= bs);
        lemma_slot_unfold::<AvcCBox>(bs, c1, avcc);
        lemma_slot_unfold::<M4dsBox>(bs, c2, m4ds);
        lemma_payloads_count(bs, c1);
        lemma_payloads_count(bs, c2);
    }
    match avcc {
        Some(a) => Ok((base, a, m4ds)),
        None => Err(Error::new(ErrorKind::BoxMissing { required: BoxType::AVCC })),
    }
}

/// An AVC sample entry (`avc1` or `avc3`) over its visual sample entry.
#[derive(Debug)]
pub struct AVCSampleEntryView<'a, S> {
    /// The visual sample entry.
    pub base: VisualSampleEntryView<'a>,
    /// The kind of sample entry.
    pub kind: PhantomData<S>,
}

impl<'a, S: AvcKind> AVCSampleEntryView<'a, S> {
    /// The visual sample entry.
    pub fn base(&self) -> (r: &VisualSampleEntryView<'a>)
        ensures
            *r == self.base,
    {
        &self.base
    }

    /// An iterator over the child boxes.
    pub fn boxes(&self) -> (r: BoxIter<'a>)
        ensures
            r.data@ == self.base.content@,
            r.pos == 0,
            r.rest() == self.base.content@,
    {
        self.base.boxes_in()
    }

    /// The AVC Configuration Box (`avcC`): the first one; an error when there
    /// is none, a malformed box comes before it, or it does not decode.
    pub fn avcc(&self) -> (r: Result<AvcCBoxView<'a>, Error>)
        ensures
            required_child(self.base.content@, BoxType::AVCC, r),
    {
        match decode_child(self.base.content, BoxType::AVCC)? {
            Some(a) => Ok(a),
            None => Err(Error::new(ErrorKind::BoxMissing { required: BoxType::AVCC })),
        }
    }

    /// The MPEG-4 Extension Descriptors Box (`m4ds`), if any.
    pub fn m4ds(&self) -> (r: Result<Option<M4dsBoxView<'a>>, Error>)
        ensures
            unique_child(self.base.content@, BoxType::M4DS, self.spec_boxtype(), r),
    {
        let parent = self.boxtype();
        decode_unique_child(self.base.content, BoxType::M4DS, parent)
    }
}

impl<'de, S> BoxDecode<'de> for AVCSampleEntryView<'de, S> {
    open spec fn spec_accepts(bytes: Seq<u8>) -> bool {
        bytes.len() >= visual_fixed_len()
    }

    open spec fn spec_decodes(bytes: Seq<u8>, v: Self) -> bool {
        visual_view_of(bytes, v.base)
    }

    fn decode(bytes: &'de [u8]) -> (r: Result<Self, Error>) {
        assert(Self::spec_accepts(bytes@) == (bytes@.len() >= visual_fixed_len()));
        assert(forall|v: Self| #[trigger] Self::spec_decodes(bytes@, v) == visual_view_of(bytes@, v.base));
        let mut cur = ReadCursor::new(bytes);
        assert(cur.rest() =~= bytes@);
        let base = VisualSampleEntryView::parse_in(&mut cur)?;
        Ok(AVCSampleEntryView { base, kind: PhantomData })
    }
}

impl<S: AvcKind> BoxCodec for AVCSampleEntryView<'_, S> {
    open spec fn spec_boxtype(&self) -> BoxType {
        S::spec_box_type()
    }

    fn boxtype(&self) -> (r: BoxType) {
        S::box_type()
    }
}

/// An AVC sample entry (`avc1` or `avc3`) with its child boxes decoded.
#[derive(Debug)]
pub struct AVCSampleEntry<S> {
    /// The visual sample entry.
    pub base: VisualSampleEntry,
    /// The AVC Configuration Box.
    pub avcc: AvcCBox,
    /// The MPEG-4 Extension Descriptors Box, if any.
    pub m4ds: Option<M4dsBox>,
    /// The kind of sample entry.
    pub kind: PhantomData<S>,
}

impl<S> Clone for AVCSampleEntry<S> {
    fn clone(&self) -> (r: AVCSampleEntry<S>) {
        AVCSampleEntry { base: self.base.clone(), avcc: self.avcc.clone(), m4ds: self.m4ds.clone(), kind: PhantomData }
    }
}

impl<S> AVCSampleEntry<S> {
    /// A sample entry from its parts.
    pub fn new(base: VisualSampleEntry, avcc: AvcCBox, m4ds: Option<M4dsBox>) -> (r: AVCSampleEntry<S>)
        ensures
            r.base == base,
            r.avcc == avcc,
            r.m4ds == m4ds,
    {
        AVCSampleEntry { base, avcc, m4ds, kind: PhantomData }
    }

    /// The owned sample entry of a view; an error when the visual sample
    /// entry fails, or for a missing, repeated or undecodable `avcC` or a
    /// repeated or undecodable `m4ds`.
    pub fn try_from(view: &AVCSampleEntryView<'_, S>) -> (r: Result<AVCSampleEntry<S>, Error>)
        ensures
            (r is Ok) == avc_entry_ok(view.base.content@),
            r matches Ok(v) ==> visual_parsed(view.base, v.base) && avc_children_decode(view.base.content@, v.avcc, v.m4ds),
    {
        let (base, avcc, m4ds) = avc_parts(&view.base)?;
        Ok(AVCSampleEntry { base, avcc, m4ds, kind: PhantomData })
    }
}

impl<S: AvcKind> AVCSampleEntry<S> {
    /// The codec string: the sample entry's name, a dot, then profile,
    /// compatibility and level, each as two upper-case hexadecimal digits
    /// (such as `avc1.42C01E`).
    pub fn codec_string(&self) -> (r: String)
        ensures
            r@ == S::spec_codec_name() + seq!['.'] + hex2(self.avcc.avc_config.avc_profile_indication)
                + hex2(self.avcc.avc_config.profile_compatibility) + hex2(self.avcc.avc_config.avc_level_indication),
    {
        codec_string_of(S::codec_name(), &self.avcc.avc_config)
    }
}

impl<'de, S> BoxDecode<'de> for AVCSampleEntry<S> {
    open spec fn spec_accepts(bytes: Seq<u8>) -> bool {
        bytes.len() >= visual_fixed_len() && avc_entry_ok(bytes.skip(visual_fixed_len()))
    }

    open spec fn spec_decodes(bytes: Seq<u8>, v: Self) -> bool {
        &&& visual_owned_of(bytes, v.base)
        &&& avc_children_decode(bytes.skip(visual_fixed_len()), v.avcc, v.m4ds)
    }

    fn decode(bytes: &'de [u8]) -> (r: Result<Self, Error>) {
        assert(Self::spec_accepts(bytes@) == (bytes@.len() >= visual_fixed_len() && avc_entry_ok(bytes@.skip(visual_fixed_len()))));
        assert(forall|v: Self| #[trigger] Self::spec_decodes(bytes@, v) == (visual_owned_of(bytes@, v.base)
            && avc_children_decode(bytes@.skip(visual_fixed_len()), v.avcc, v.m4ds)));
        let view = AVCSampleEntryView::<S>::decode(bytes)?;
        AVCSampleEntry::try_from(&view)
    }
}

impl<S: AvcKind> BoxCodec for AVCSampleEntry<S> {
    open spec fn spec_boxtype(&self) -> BoxType {
        S::spec_box_type()
    }

    fn boxtype(&self) -> (r: BoxType) {
        S::box_type()
    }
}

impl<S: AvcKind> BoxEncode for AVCSampleEntry<S> {
    open spec fn spec_encode(&self) -> Seq<u8> {
        self.base.spec_encode() + spec_boxed(&self.avcc) + spec_opt_boxed(self.m4ds)
    }

    open spec fn spec_encodable(&self) -> bool {
        &&& self.base.spec_encodable()
        &&& self.avcc.spec_encodable()
        &&& spec_opt_encodable(self.m4ds)
        &&& self.spec_encode().len() <= usize::MAX
    }

    fn encoded_len(&self) -> (r: usize) {
        entry_len(&self.base, &self.avcc, &self.m4ds)
    }

    fn encode_into(&self, bytes: &mut [u8]) -> (r: Result<usize, Error>) {
        write_entry(bytes, &self.base, &self.avcc, &self.m4ds)
    }
}

/// An AVC sample entry (`avc2` or `avc4`) over its visual sample entry.
#[derive(Debug)]
pub struct AVC2SampleEntryView<'a, S> {
    /// The visual sample entry.
    pub base: VisualSampleEntryView<'a>,
    /// The kind of sample entry.
    pub kind: PhantomData<S>,
}

impl<'a, S: AvcKind> AVC2SampleEntryView<'a, S> {
    /// The visual sample entry.
    pub fn base(&self) -> (r: &VisualSampleEntryView<'a>)
        ensures
            *r == self.base,
    {
        &self.base
    }

    /// An iterator over the child boxes.
    pub fn boxes(&self) -> (r: BoxIter<'a>)
        ensures
            r.data@ == self.base.content@,
            r.pos == 0,
            r.rest() == self.base.content@,
    {
        self.base.boxes_in()
    }

    /// The AVC Configuration Box (`avcC`): the first one; an error when there
    /// is none, a malformed box comes before it, or it does not decode.
    pub fn avcc(&self) -> (r: Result<AvcCBoxView<'a>, Error>)
        ensures
            required_child(self.base.content@, BoxType::AVCC, r),
    {
        match decode_child(self.base.content, BoxType::AVCC)? {
            Some(a) => Ok(a),
            None => Err(Error::new(ErrorKind::BoxMissing { required: BoxType::AVCC })),
        }
    }

    /// The MPEG-4 Extension Descriptors Box (`m4ds`), if any.
    pub fn m4ds(&self) -> (r: Result<Option<M4dsBoxView<'a>>, Error>)
        ensures
            unique_child(self.base.content@, BoxType::M4DS, self.spec_boxtype(), r),
    {
        let parent = self.boxtype();
        decode_unique_child(self.base.content, BoxType::M4DS, parent)
    }
}

impl<'de, S> BoxDecode<'de> for AVC2SampleEntryView<'de, S> {
    open spec fn spec_accepts(bytes: Seq<u8>) -> bool {
        bytes.len() >= visual_fixed_len()
    }

    open spec fn spec_decodes(bytes: Seq<u8>, v: Self) -> bool {
        visual_view_of(bytes, v.base)
    }

    fn decode(bytes: &'de [u8]) -> (r: Result<Self, Error>) {
        assert(Self::spec_accepts(bytes@) == (bytes@.len() >= visual_fixed_len()));
        assert(forall|v: Self| #[trigger] Self::spec_decodes(bytes@, v) == visual_view_of(bytes@, v.base));
        let mut cur = ReadCursor::new(bytes);
        assert(cur.rest() =~= bytes@);
        let base = VisualSampleEntryView::parse_in(&mut cur)?;
        Ok(AVC2SampleEntryView { base, kind: PhantomData })
    }
}

impl<S: AvcKind> BoxCodec for AVC2SampleEntryView<'_, S> {
    open spec fn spec_boxtype(&self) -> BoxType {
        S::spec_box_type()
    }

    fn boxtype(&self) -> (r: BoxType) {
        S::box_type()
    }
}

/// An AVC sample entry (`avc2` or `avc4`) with its child boxes decoded.
#[derive(Debug)]
pub struct AVC2SampleEntry<S> {
    /// The visual sample entry.
    pub base: VisualSampleEntry,
    /// The AVC Configuration Box.
    pub avcc: AvcCBox,
    /// The MPEG-4 Extension Descriptors Box, if any.
    pub m4ds: Option<M4dsBox>,
    /// The kind of sample entry.
    pub kind: PhantomData<S>,
}

impl<S> Clone for AVC2SampleEntry<S> {
    fn clone(&self) -> (r: AVC2SampleEntry<S>) {
        AVC2SampleEntry { base: self.base.clone(), avcc: self.avcc.clone(), m4ds: self.m4ds.clone(), kind: PhantomData }
    }
}

impl<S> AVC2SampleEntry<S> {
    /// A sample entry from its parts.
    pub fn new(base: VisualSampleEntry, avcc: AvcCBox, m4ds: Option<M4dsBox>) -> (r: AVC2SampleEntry<S>)
        ensures
            r.base == base,
            r.avcc == avcc,
            r.m4ds == m4ds,
    {
        AVC2SampleEntry { base, avcc, m4ds, kind: PhantomData }
    }

    /// The owned sample entry of a view; an error when the visual sample
    /// entry fails, or for a missing, repeated or undecodable `avcC` or a
    /// repeated or undecodable `m4ds`.
    pub fn try_from(view: &AVC2SampleEntryView<'_, S>) -> (r: Result<AVC2SampleEntry<S>, Error>)
        ensures
            (r is Ok) == avc_entry_ok(view.base.content@),
            r matches Ok(v) ==> visual_parsed(view.base, v.base) && avc_children_decode(view.base.content@, v.avcc, v.m4ds),
    {
        let (base, avcc, m4ds) = avc_parts(&view.base)?;
        Ok(AVC2SampleEntry { base, avcc, m4ds, kind: PhantomData })
    }
}

impl<S: AvcKind> AVC2SampleEntry<S> {
    /// The codec string: the sample entry's name, a dot, then profile,
    /// compatibility and level, each as two upper-case hexadecimal digits
    /// (such as `avc1.42C01E`).
    pub fn codec_string(&self) -> (r: String)
        ensures
            r@ == S::spec_codec_name() + seq!['.'] + hex2(self.avcc.avc_config.avc_profile_indication)
                + hex2(self.avcc.avc_config.profile_compatibility) + hex2(self.avcc.avc_config.avc_level_indication),
    {
        codec_string_of(S::codec_name(), &self.avcc.avc_config)
    }
}

impl<'de, S> BoxDecode<'de> for AVC2SampleEntry<S> {
    open spec fn spec_accepts(bytes: Seq<u8>) -> bool {
        bytes.len() >= visual_fixed_len() && avc_entry_ok(bytes.skip(visual_fixed_len()))
    }

    open spec fn spec_decodes(bytes: Seq<u8>, v: Self) -> bool {
        &&& visual_owned_of(bytes, v.base)
        &&& avc_children_decode(bytes.skip(visual_fixed_len()), v.avcc, v.m4ds)
    }

    fn decode(bytes: &'de [u8]) -> (r: Result<Self, Error>) {
        assert(Self::spec_accepts(bytes@) == (bytes@.len() >= visual_fixed_len() && avc_entry_ok(bytes@.skip(visual_fixed_len()))));
        assert(forall|v: Self| #[trigger] Self::spec_decodes(bytes@, v) == (visual_owned_of(bytes@, v.base)
            && avc_children_decode(bytes@.skip(visual_fixed_len()), v.avcc, v.m4ds)));
        let view = AVC2SampleEntryView::<S>::decode(bytes)?;
        AVC2SampleEntry::try_from(&view)
    }
}

impl<S: AvcKind> BoxCodec for AVC2SampleEntry<S> {
    open spec fn spec_boxtype(&self) -> BoxType {
        S::spec_box_type()
    }

    fn boxtype(&self) -> (r: BoxType) {
        S::box_type()
    }
}

impl<S: AvcKind> BoxEncode for AVC2SampleEntry<S> {
    open spec fn spec_encode(&self) -> Seq<u8> {
        self.base.spec_encode() + spec_boxed(&self.avcc) + spec_opt_boxed(self.m4ds)
    }

    open spec fn spec_encodable(&self) -> bool {
        &&& self.base.spec_encodable()
        &&& self.avcc.spec_encodable()
        &&& spec_opt_encodable(self.m4ds)
        &&& self.spec_encode().len() <= usize::MAX
    }

    fn encoded_len(&self) -> (r: usize) {
        entry_len(&self.base, &self.avcc, &self.m4ds)
    }

    fn encode_into(&self, bytes: &mut [u8]) -> (r: Result<usize, Error>) {
        write_entry(bytes, &self.base, &self.avcc, &self.m4ds)
    }
}

/// Whether the owned visual sample entry `v` holds the fields of the sample
/// entry `bytes` and what its child boxes decode to.
pub open spec fn visual_owned_of(bytes: Seq<u8>, v: VisualSampleEntry) -> bool {
    &&& bytes.len() >= visual_fixed_len()
    &&& v.base.data_reference_index == crate::bytes::be16(bytes, 6)
    &&& v.width == crate::bytes::be16(bytes, 24)
    &&& v.height == crate::bytes::be16(bytes, 26)
    &&& v.horizresolution.0 == crate::bytes::be32(bytes, 28)
    &&& v.vertresolution.0 == crate::bytes::be32(bytes, 32)
    &&& v.frame_count == crate::bytes::be16(bytes, 40)
    &&& v.compressorname.0@ == bytes.subrange(42, 74)
    &&& v.depth == crate::bytes::be16(bytes, 74)
    &&& visual_children_decode(spec_children(bytes.skip(visual_fixed_len())), v)
}

/// The length of an AVC sample entry's payload (saturating at `usize::MAX`).
fn entry_len(base: &VisualSampleEntry, avcc: &AvcCBox, m4ds: &Option<M4dsBox>) -> (r: usize)
    ensures
        base.spec_encodable() && avcc.spec_encodable() && spec_opt_encodable(*m4ds)
            && base.spec_encode().len() + spec_boxed(avcc).len() + spec_opt_boxed(*m4ds).len() <= usize::MAX
            ==> r == base.spec_encode().len() + spec_boxed(avcc).len() + spec_opt_boxed(*m4ds).len(),
{
    let a = base.encode_len();
    let b = boxed_len(avcc);
    let c = opt_boxed_len(m4ds);
    proof {
        lemma_boxed_len(avcc);
    }
    if b > usize::MAX - a || c > usize::MAX - a - b {
        return usize::MAX;
    }
    a + b + c
}

/// Writes an AVC sample entry's payload at the start of `bytes`.
fn write_entry(bytes: &mut [u8], base: &VisualSampleEntry, avcc: &AvcCBox, m4ds: &Option<M4dsBox>) -> (r: Result<usize, Error>)
    ensures
        final(bytes)@.len() == old(bytes)@.len(),
        (r is Ok) == (spec_opt_encodable(base.colr) && spec_opt_encodable(base.clap) && spec_opt_encodable(base.pasp)
            && avcc.spec_encodable() && spec_opt_encodable(*m4ds)
            && base.spec_encode().len() + spec_boxed(avcc).len() + spec_opt_boxed(*m4ds).len() <= old(bytes)@.len()),
        r matches Ok(n) ==> n == base.spec_encode().len() + spec_boxed(avcc).len() + spec_opt_boxed(*m4ds).len()
            && final(bytes)@ == splice(old(bytes)@, 0, base.spec_encode() + spec_boxed(avcc) + spec_opt_boxed(*m4ds)),
{
    let ghost s0 = bytes@;
    let p = base.write_in(bytes, 0)?;
    let p = write_box_at(bytes, p, avcc)?;
    proof {
        lemma_splice_concat(s0, 0, base.spec_encode(), spec_boxed(avcc));
    }
    let p = write_opt_box_at(bytes, p, m4ds)?;
    proof {
        lemma_splice_concat(s0, 0, base.spec_encode() + spec_boxed(avcc), spec_opt_boxed(*m4ds));
    }
    Ok(p)
}

/// The upper-case hexadecimal digit of `d` (below 16).
pub open spec fn hex_digit(d: int) -> char {
    if d == 0 { '0' } else if d == 1 { '1' } else if d == 2 { '2' } else if d == 3 { '3' }
    else if d == 4 { '4' } else if d == 5 { '5' } else if d == 6 { '6' } else if d == 7 { '7' }
    else if d == 8 { '8' } else if d == 9 { '9' } else if d == 10 { 'A' } else if d == 11 { 'B' }
    else if d == 12 { 'C' } else if d == 13 { 'D' } else if d == 14 { 'E' } else { 'F' }
}

/// The two upper-case hexadecimal digits of `b`.
pub open spec fn hex2(b: u8) -> Seq<char> {
    seq![hex_digit(b as int / 16), hex_digit(b as int % 16)]
}

/// The one-character string of the hexadecimal digit `d` (below 16).
fn hex_str(d: u8) -> (r: &'static str)
    requires
        d < 16,
    ensures
        r@ == seq![hex_digit(d as int)],
{
    proof {
        reveal_strlit("0");
        reveal_strlit("1");
        reveal_strlit("2");
        reveal_strlit("3");
        reveal_strlit("4");
        reveal_strlit("5");
        reveal_strlit("6");
        reveal_strlit("7");
        reveal_strlit("8");
        reveal_strlit("9");
        reveal_strlit("A");
        reveal_strlit("B");
        reveal_strlit("C");
        reveal_strlit("D");
        reveal_strlit("E");
        reveal_strlit("F");
    }
    if d == 0 { "0" } else if d == 1 { "1" } else if d == 2 { "2" } else if d == 3 { "3" }
    else if d == 4 { "4" } else if d == 5 { "5" } else if d == 6 { "6" } else if d == 7 { "7" }
    else if d == 8 { "8" } else if d == 9 { "9" } else if d == 10 { "A" } else if d == 11 { "B" }
    else if d == 12 { "C" } else if d == 13 { "D" } else if d == 14 { "E" } else { "F" }
}

/// The codec string of `name` and the configuration record `c`.
fn codec_string_of(name: &str, c: &AVCDecoderConfigurationRecord) -> (r: String)
    ensures
        r@ == name@ + seq!['.'] + hex2(c.avc_profile_indication) + hex2(c.profile_compatibility) + hex2(c.avc_level_indication),
{
    let mut s = String::from_str(name);
    proof {
        reveal_strlit(".");
    }
    s.append(".");
    let p = c.avc_profile_indication;
    let q = c.profile_compatibility;
    let l = c.avc_level_indication;
    s.append(hex_str(p / 16));
    s.append(hex_str(p % 16));
    s.append(hex_str(q / 16));
    s.append(hex_str(q % 16));
    s.append(hex_str(l / 16));
    s.append(hex_str(l % 16));
    assert(s@ =~= name@ + seq!['.'] + hex2(p) + hex2(q) + hex2(l));
    s
}

/// An `avc1` sample entry over its visual sample entry.
pub type Avc1SampleEntryView<'a> = AVCSampleEntryView<'a, Avc1>;

/// An `avc3` sample entry over its visual sample entry.
pub type Avc3SampleEntryView<'a> = AVCSampleEntryView<'a, Avc3>;

/// An `avc2` sample entry over its visual sample entry.
pub type Avc2SampleEntryView<'a> = AVC2SampleEntryView<'a, Avc2>;

/// An `avc4` sample entry over its visual sample entry.
pub type Avc4SampleEntryView<'a> = AVC2SampleEntryView<'a, Avc4>;

/// An `avc1` sample entry with its child boxes decoded.
pub type Avc1SampleEntry = AVCSampleEntry<Avc1>;

/// An `avc3` sample entry with its child boxes decoded.
pub type Avc3SampleEntry = AVCSampleEntry<Avc3>;

/// An `avc2` sample entry with its child boxes decoded.
pub type Avc2SampleEntry = AVC2SampleEntry<Avc2>;

/// An `avc4` sample entry with its child boxes decoded.
pub type Avc4SampleEntry = AVC2SampleEntry<Avc4>;

} // verus!
