//! Sample Table Box (`stbl`): the container of the tables that locate, time
//! and describe the samples of a track.
use vstd::prelude::*;

use crate::children::{is_duplicate_error, duplicate_error, unique_child, unique_required, decode_unique_child, decode_unique_required, decode_child, decode_required, decode_all, optional_child, required_child, all_accepted, all_decoded, payloads_of, count_code, box_code, box_payload, slot, list_slot, opt_decoded, lemma_slot_other, lemma_slot_fill, lemma_list_other, lemma_list_push, lemma_children_push, lemma_children_step, lemma_count_grows, lemma_rejected_stays, lemma_payloads_count, lemma_slot_unfold, lemma_list_unfold, lemma_slot_empty};
use crate::codec::{BoxCodec, BoxDecode, BoxEncode, spec_boxed, spec_opt_boxed, spec_boxed_list, spec_opt_encodable, spec_list_encodable, boxed_len, opt_boxed_len, list_boxed_len, write_box_at, write_opt_box_at, write_box_list_at, lemma_boxed_len};
use crate::cursor::{splice, lemma_splice_concat};
use crate::error::{Error, ErrorKind};
use crate::flags::BoxFlags;
use crate::rawbox::{BoxIter, Lookup, spec_find, spec_find_after, spec_children, spec_children_ok, spec_box_len, lemma_box_len_bounds};
use crate::types::BoxType;
use crate::boxes::co64::{Co64Box, Co64BoxView, Co64Entry};
use crate::boxes::cslg::CslgBox;
use crate::boxes::ctts::{CttsBox, CttsBoxView};
use crate::boxes::sbgp::{SbgpBox, SbgpBoxView};
use crate::boxes::sdtp::{SdtpBox, SdtpBoxView};
use crate::boxes::sgpd::{SgpdBox, SgpdBoxView};
use crate::boxes::stco::{StcoBox, StcoBoxView, StcoEntry};
use crate::boxes::stdp::{StdpBox, StdpBoxView};
use crate::boxes::stsc::{StscBox, StscBoxView};
use crate::boxes::stsd::{StsdBox, StsdBoxView};
use crate::boxes::stsh::{StshBox, StshBoxView};
use crate::boxes::stss::{StssBox, StssBoxView};
use crate::boxes::stsz::{StszBox, StszBoxView};
use crate::boxes::stts::{SttsBox, SttsBoxView};
use crate::boxes::stz2::{Stz2Box, Stz2BoxView, stz2_sizes};

verus! {

/// Sample Table Box (`stbl`) over the bytes of its child boxes.
#[derive(Debug)]
pub struct StblBoxView<'a> {
    /// The child boxes.
    pub content: &'a [u8],
}

impl<'a> StblBoxView<'a> {
    /// An iterator over the child boxes.
    pub fn boxes(&self) -> (r: BoxIter<'a>)
        ensures
            r.data@ == self.content@,
            r.pos == 0,
            r.rest() == self.content@,
    {
        BoxIter::new(self.content)
    }

    /// The Sample Description Box (`stsd`), which is required.
    pub fn stsd(&self) -> (r: Result<StsdBoxView<'a>, Error>)
        ensures
            required_child(self.content@, BoxType::STSD, r),
    {
        decode_required(self.content, BoxType::STSD, BoxType::STBL)
    }

    /// The Degradation Priority Box (`stdp`), if any.
    pub fn stdp(&self) -> (r: Result<Option<StdpBoxView<'a>>, Error>)
        ensures
            optional_child(self.content@, BoxType::STDP, r),
    {
        decode_child(self.content, BoxType::STDP)
    }

    /// The Decoding Time to Sample Box (`stts`), which is required.
    pub fn stts(&self) -> (r: Result<SttsBoxView<'a>, Error>)
        ensures
            required_child(self.content@, BoxType::STTS, r),
    {
        decode_required(self.content, BoxType::STTS, BoxType::STBL)
    }

    /// The Composition Time to Sample Box (`ctts`), if any.
    pub fn ctts(&self) -> (r: Result<Option<CttsBoxView<'a>>, Error>)
        ensures
            optional_child(self.content@, BoxType::CTTS, r),
    {
        decode_child(self.content, BoxType::CTTS)
    }

    /// The Composition to Decode Box (`cslg`), if any.
    pub fn cslg(&self) -> (r: Result<Option<CslgBox>, Error>)
        ensures
            optional_child(self.content@, BoxType::CSLG, r),
    {
        decode_child(self.content, BoxType::CSLG)
    }

    /// The Sync Sample Box (`stss`), if any.
    pub fn stss(&self) -> (r: Result<Option<StssBoxView<'a>>, Error>)
        ensures
            optional_child(self.content@, BoxType::STSS, r),
    {
        decode_child(self.content, BoxType::STSS)
    }

    /// The Shadow Sync Sample Box (`stsh`), if any.
    pub fn stsh(&self) -> (r: Result<Option<StshBoxView<'a>>, Error>)
        ensures
            optional_child(self.content@, BoxType::STSH, r),
    {
        decode_child(self.content, BoxType::STSH)
    }

    /// The Independent and Disposable Samples Box (`sdtp`), if any.
    pub fn sdtp(&self) -> (r: Result<Option<SdtpBoxView<'a>>, Error>)
        ensures
            optional_child(self.content@, BoxType::SDTP, r),
    {
        decode_child(self.content, BoxType::SDTP)
    }

    /// The Sample Size Box (`stsz`), if any.
    pub fn stsz(&self) -> (r: Result<Option<StszBoxView<'a>>, Error>)
        ensures
            optional_child(self.content@, BoxType::STSZ, r),
    {
        decode_child(self.content, BoxType::STSZ)
    }

    /// The Compact Sample Size Box (`stz2`), if any.
    pub fn stz2(&self) -> (r: Result<Option<Stz2BoxView<'a>>, Error>)
        ensures
            optional_child(self.content@, BoxType::STZ2, r),
    {
        decode_child(self.content, BoxType::STZ2)
    }

    /// The Sample to Chunk Box (`stsc`), which is required.
    pub fn stsc(&self) -> (r: Result<StscBoxView<'a>, Error>)
        ensures
            unique_required(self.content@, BoxType::STSC, BoxType::STBL, r),
    {
        decode_unique_required(self.content, BoxType::STSC, BoxType::STBL)
    }

    /// The Chunk Offset Box (`stco`), if any (a file may use `co64` instead).
    pub fn stco(&self) -> (r: Result<Option<StcoBoxView<'a>>, Error>)
        ensures
            unique_child(self.content@, BoxType::STCO, BoxType::STBL, r),
    {
        decode_unique_child(self.content, BoxType::STCO, BoxType::STBL)
    }

    /// The Chunk Large Offset Box (`co64`), if any (a file may use `stco` instead).
    pub fn co64(&self) -> (r: Result<Option<Co64BoxView<'a>>, Error>)
        ensures
            unique_child(self.content@, BoxType::CO64, BoxType::STBL, r),
    {
        decode_unique_child(self.content, BoxType::CO64, BoxType::STBL)
    }

    /// Every Sample to Group Box (`sbgp`), in order; an error when a child box
    /// is malformed or one of them does not decode.
    pub fn sbgps(&self) -> (r: Result<Vec<SbgpBoxView<'a>>, Error>)
        ensures
            (r is Ok) == (spec_children_ok(self.content@) && all_accepted::<SbgpBoxView>(payloads_of(spec_children(self.content@), BoxType::SBGP.code()))),
            r matches Ok(v) ==> all_decoded(payloads_of(spec_children(self.content@), BoxType::SBGP.code()), v@),
    {
        decode_all(self.content, BoxType::SBGP)
    }

    /// Every Sample Group Description Box (`sgpd`), in order; an error when a
    /// child box is malformed or one of them does not decode.
    pub fn sgpds(&self) -> (r: Result<Vec<SgpdBoxView<'a>>, Error>)
        ensures
            (r is Ok) == (spec_children_ok(self.content@) && all_accepted::<SgpdBoxView>(payloads_of(spec_children(self.content@), BoxType::SGPD.code()))),
            r matches Ok(v) ==> all_decoded(payloads_of(spec_children(self.content@), BoxType::SGPD.code()), v@),
    {
        decode_all(self.content, BoxType::SGPD)
    }

    /// The sample sizes: the `stsz` box if there is one, else the `stz2` box,
    /// else a `BoxMissing` error naming `stsz` in the `stbl` box.
    pub fn sample_size(&self) -> (r: Result<SampleSizeView<'a>, Error>)
        ensures
            match spec_find(self.content@, BoxType::STSZ.code()) {
                Lookup::Found(p) => (r is Ok) == StszBoxView::spec_accepts(p) && (r is Ok ==> (r matches Ok(SampleSizeView::Stsz(v))
                    && StszBoxView::spec_decodes(p, v))),
                Lookup::Malformed => r is Err,
                Lookup::Missing => match spec_find(self.content@, BoxType::STZ2.code()) {
                    Lookup::Found(q) => (r is Ok) == Stz2BoxView::spec_accepts(q) && (r is Ok ==> (r matches Ok(SampleSizeView::Stz2(v))
                        && Stz2BoxView::spec_decodes(q, v))),
                    Lookup::Missing => r == Err::<SampleSizeView<'a>, Error>(Error {
                        kind: ErrorKind::BoxMissing { required: BoxType::STSZ },
                        offset: None,
                        box_type: Some(BoxType::STBL),
                    }),
                    Lookup::Malformed => r is Err,
                },
            },
    {
        match self.stsz() {
            Err(e) => Err(e),
            Ok(Some(v)) => Ok(SampleSizeView::Stsz(v)),
            Ok(None) => {
                match self.stz2() {
                    Ok(Some(v)) => Ok(SampleSizeView::Stz2(v)),
                    Ok(None) => Err(Error::in_box(ErrorKind::BoxMissing { required: BoxType::STSZ }, BoxType::STBL)),
                    Err(e) => Err(e),
                }
            },
        }
    }

    /// The chunk offsets: the `stco` box if there is one, else the `co64` box,
    /// else a `BoxMissing` error naming `stco` in the `stbl` box; a second box
    /// of the type found is a `BoxDuplicate` error.
    pub fn chunk_offset(&self) -> (r: Result<ChunkOffsetView<'a>, Error>)
        ensures
            match spec_find(self.content@, BoxType::STCO.code()) {
                Lookup::Found(p) => match spec_find(spec_find_after(self.content@, BoxType::STCO.code()), BoxType::STCO.code()) {
                    Lookup::Found(_) => r == Err::<ChunkOffsetView<'a>, Error>(duplicate_error(BoxType::STCO, BoxType::STBL)),
                    Lookup::Missing => (r is Ok) == StcoBoxView::spec_accepts(p) && (r is Ok ==> (r matches Ok(ChunkOffsetView::Stco(v))
                        && StcoBoxView::spec_decodes(p, v))),
                    Lookup::Malformed => r is Err,
                },
                Lookup::Malformed => r is Err,
                Lookup::Missing => match spec_find(self.content@, BoxType::CO64.code()) {
                    Lookup::Found(q) => match spec_find(spec_find_after(self.content@, BoxType::CO64.code()), BoxType::CO64.code()) {
                        Lookup::Found(_) => r == Err::<ChunkOffsetView<'a>, Error>(duplicate_error(BoxType::CO64, BoxType::STBL)),
                        Lookup::Missing => (r is Ok) == Co64BoxView::spec_accepts(q) && (r is Ok ==> (r matches Ok(ChunkOffsetView::Co64(v))
                            && Co64BoxView::spec_decodes(q, v))),
                        Lookup::Malformed => r is Err,
                    },
                    Lookup::Missing => r == Err::<ChunkOffsetView<'a>, Error>(Error {
                        kind: ErrorKind::BoxMissing { required: BoxType::STCO },
                        offset: None,
                        box_type: Some(BoxType::STBL),
                    }),
                    Lookup::Malformed => r is Err,
                },
            },
    {
        match self.stco() {
            Err(e) => Err(e),
            Ok(Some(v)) => Ok(ChunkOffsetView::Stco(v)),
            Ok(None) => {
                match self.co64() {
                    Ok(Some(v)) => Ok(ChunkOffsetView::Co64(v)),
                    Ok(None) => Err(Error::in_box(ErrorKind::BoxMissing { required: BoxType::STCO }, BoxType::STBL)),
                    Err(e) => Err(e),
                }
            },
        }
    }
}

impl BoxCodec for StblBoxView<'_> {
    open spec fn spec_boxtype(&self) -> BoxType {
        BoxType::STBL
    }

    fn boxtype(&self) -> (r: BoxType) {
        BoxType::STBL
    }
}

impl<'de> BoxDecode<'de> for StblBoxView<'de> {
    open spec fn spec_accepts(bytes: Seq<u8>) -> bool {
        true
    }

    open spec fn spec_decodes(bytes: Seq<u8>, v: Self) -> bool {
        v.content@ == bytes
    }

    fn decode(bytes: &'de [u8]) -> (r: Result<Self, Error>) {
        Ok(StblBoxView { content: bytes })
    }
}

/// The sample sizes of a sample table: an `stsz` or an `stz2` box.
#[derive(Debug)]
pub enum SampleSizeView<'a> {
    /// Sample Size Box (`stsz`).
    Stsz(StszBoxView<'a>),
    /// Compact Sample Size Box (`stz2`).
    Stz2(Stz2BoxView<'a>),
}

impl SampleSizeView<'_> {
    /// The number of samples the box describes.
    pub fn sample_count(&self) -> (r: u32)
        ensures
            r == match self {
                SampleSizeView::Stsz(b) => b.sample_count,
                SampleSizeView::Stz2(b) => b.sample_count,
            },
    {
        match self {
            SampleSizeView::Stsz(stsz) => stsz.sample_count,
            SampleSizeView::Stz2(stz2) => stz2.sample_count,
        }
    }
}

/// The chunk offsets of a sample table: an `stco` or a `co64` box.
#[derive(Debug)]
pub enum ChunkOffsetView<'a> {
    /// Chunk Offset Box (`stco`).
    Stco(StcoBoxView<'a>),
    /// Chunk Large Offset Box (`co64`).
    Co64(Co64BoxView<'a>),
}

impl ChunkOffsetView<'_> {
    /// The number of chunk offsets the box declares.
    pub fn entry_count(&self) -> (r: u32)
        ensures
            r == match self {
                ChunkOffsetView::Stco(b) => b.entry_count,
                ChunkOffsetView::Co64(b) => b.entry_count,
            },
    {
        match self {
            ChunkOffsetView::Stco(stco) => stco.entry_count,
            ChunkOffsetView::Co64(co64) => co64.entry_count,
        }
    }
}

/// The sample sizes of an owned sample table: an `stsz` or an `stz2` box.
#[derive(Debug, Clone)]
pub enum SampleSize {
    /// Sample Size Box (`stsz`).
    Stsz(StszBox),
    /// Compact Sample Size Box (`stz2`).
    Stz2(Stz2Box),
}

impl From<StszBox> for SampleSize {
    fn from(stsz: StszBox) -> (r: SampleSize) {
        SampleSize::Stsz(stsz)
    }
}

impl vstd::std_specs::convert::FromSpecImpl<StszBox> for SampleSize {
    open spec fn obeys_from_spec() -> bool {
        true
    }

    open spec fn from_spec(stsz: StszBox) -> SampleSize {
        SampleSize::Stsz(stsz)
    }
}

impl From<Stz2Box> for SampleSize {
    fn from(stz2: Stz2Box) -> (r: SampleSize) {
        SampleSize::Stz2(stz2)
    }
}

impl vstd::std_specs::convert::FromSpecImpl<Stz2Box> for SampleSize {
    open spec fn obeys_from_spec() -> bool {
        true
    }

    open spec fn from_spec(stz2: Stz2Box) -> SampleSize {
        SampleSize::Stz2(stz2)
    }
}

impl SampleSize {
    /// The number of samples: the `stsz` sample count, or the number of
    /// `stz2` entries (cut to 32 bits).
    pub fn sample_count(&self) -> (r: u32)
        ensures
            r == match self {
                SampleSize::Stsz(b) => b.sample_count,
                SampleSize::Stz2(b) => b.entries@.len() as u32,
            },
    {
        match self {
            SampleSize::Stsz(stsz) => stsz.sample_count,
            SampleSize::Stz2(stz2) => stz2.entries.len() as u32,
        }
    }

    /// The size of sample `index`, or `None` when the index is out of bounds:
    /// the shared `stsz` size for each of its samples when there is one, else
    /// the entry at `index`.
    pub fn get(&self, index: usize) -> (r: Option<u32>)
        ensures
            r == match self {
                SampleSize::Stsz(b) => if b.sample_size != 0 {
                    if index < b.sample_count { Some(b.sample_size) } else { None }
                } else if index < b.entries@.len() {
                    Some(b.entries@[index as int].entry_size)
                } else {
                    None
                },
                SampleSize::Stz2(b) => if index < b.entries@.len() {
                    Some(b.entries@[index as int].entry_size as u32)
                } else {
                    None
                },
            },
    {
        match self {
            SampleSize::Stsz(stsz) => {
                if stsz.sample_size != 0 {
                    if index < stsz.sample_count as usize {
                        Some(stsz.sample_size)
                    } else {
                        None
                    }
                } else if index < stsz.entries.len() {
                    Some(stsz.entries[index].entry_size)
                } else {
                    None
                }
            },
            SampleSize::Stz2(stz2) => {
                if index < stz2.entries.len() {
                    Some(stz2.entries[index].entry_size as u32)
                } else {
                    None
                }
            },
        }
    }
}

/// The chunk offsets of an owned sample table: an `stco` or a `co64` box.
#[derive(Debug, Clone)]
pub enum ChunkOffset {
    /// Chunk Offset Box (`stco`): 32-bit offsets.
    Stco(StcoBox),
    /// Chunk Large Offset Box (`co64`): 64-bit offsets.
    Co64(Co64Box),
}

/// The offsets of `stco` entries, widened to 64 bits.
pub open spec fn stco_offsets(es: Seq<StcoEntry>) -> Seq<u64> {
    es.map_values(|e: StcoEntry| e.chunk_offset as u64)
}

/// The offsets of `co64` entries.
pub open spec fn co64_offsets(es: Seq<Co64Entry>) -> Seq<u64> {
    es.map_values(|e: Co64Entry| e.chunk_offset)
}

impl From<StcoBox> for ChunkOffset {
    fn from(stco: StcoBox) -> (r: ChunkOffset) {
        ChunkOffset::Stco(stco)
    }
}

impl vstd::std_specs::convert::FromSpecImpl<StcoBox> for ChunkOffset {
    open spec fn obeys_from_spec() -> bool {
        true
    }

    open spec fn from_spec(stco: StcoBox) -> ChunkOffset {
        ChunkOffset::Stco(stco)
    }
}

impl From<Co64Box> for ChunkOffset {
    fn from(co64: Co64Box) -> (r: ChunkOffset) {
        ChunkOffset::Co64(co64)
    }
}

impl vstd::std_specs::convert::FromSpecImpl<Co64Box> for ChunkOffset {
    open spec fn obeys_from_spec() -> bool {
        true
    }

    open spec fn from_spec(co64: Co64Box) -> ChunkOffset {
        ChunkOffset::Co64(co64)
    }
}

impl ChunkOffset {
    /// The chunk offsets, in order.
    pub open spec fn offsets(&self) -> Seq<u64> {
        match self {
            ChunkOffset::Stco(b) => stco_offsets(b.entries@),
            ChunkOffset::Co64(b) => co64_offsets(b.entries@),
        }
    }

    /// The number of chunk offsets.
    pub fn entries_count(&self) -> (r: usize)
        ensures
            r == self.offsets().len(),
    {
        match self {
            ChunkOffset::Stco(stco) => stco.entries.len(),
            ChunkOffset::Co64(co64) => co64.entries.len(),
        }
    }

    /// The chunk offsets, in order, as 64-bit values.
    pub fn iter(&self) -> (r: Vec<u64>)
        ensures
            r@ == self.offsets(),
    {
        let mut out: Vec<u64> = Vec::new();
        match self {
            ChunkOffset::Stco(stco) => {
                let mut i: usize = 0;
                while i < stco.entries.len()
                    invariant
                        i <= stco.entries@.len(),
                        out@ == stco_offsets(stco.entries@).take(i as int),
                    decreases stco.entries@.len() - i,
                {
                    out.push(stco.entries[i].chunk_offset as u64);
                    i = i + 1;
                    assert(out@ =~= stco_offsets(stco.entries@).take(i as int));
                }
                assert(stco_offsets(stco.entries@).take(i as int) =~= stco_offsets(stco.entries@));
            },
            ChunkOffset::Co64(co64) => {
                let mut i: usize = 0;
                while i < co64.entries.len()
                    invariant
                        i <= co64.entries@.len(),
                        out@ == co64_offsets(co64.entries@).take(i as int),
                    decreases co64.entries@.len() - i,
                {
                    out.push(co64.entries[i].chunk_offset);
                    i = i + 1;
                    assert(out@ =~= co64_offsets(co64.entries@).take(i as int));
                }
                assert(co64_offsets(co64.entries@).take(i as int) =~= co64_offsets(co64.entries@));
            },
        }
        out
    }

    /// Adds a chunk offset. 32-bit offsets are kept until one does not fit;
    /// then every offset moves to a new `co64` box (version 0, no flags).
    pub fn push(&mut self, offset: u64)
        ensures
            final(self).offsets() == old(self).offsets().push(offset),
            match (*old(self), *final(self)) {
                (ChunkOffset::Stco(a), ChunkOffset::Stco(b)) => offset <= u32::MAX && b.version == a.version && b.flags == a.flags,
                (ChunkOffset::Stco(a), ChunkOffset::Co64(b)) => offset > u32::MAX && b.version == 0 && b.flags.0 == 0,
                (ChunkOffset::Co64(a), ChunkOffset::Co64(b)) => b.version == a.version && b.flags == a.flags,
                _ => false,
            },
    {
        match self {
            ChunkOffset::Stco(stco) => {
                if offset > 0xFFFF_FFFF {
                    let mut co64_entries: Vec<Co64Entry> = Vec::new();
                    let mut i: usize = 0;
                    while i < stco.entries.len()
                        invariant
                            i <= stco.entries@.len(),
                            co64_offsets(co64_entries@) == stco_offsets(stco.entries@).take(i as int),
                        decreases stco.entries@.len() - i,
                    {
                        let ghost prev = co64_offsets(co64_entries@);
                        co64_entries.push(Co64Entry { chunk_offset: stco.entries[i].chunk_offset as u64 });
                        assert(co64_offsets(co64_entries@) =~= prev.push(stco.entries@[i as int].chunk_offset as u64));
                        assert(stco_offsets(stco.entries@).take(i + 1) =~= stco_offsets(stco.entries@).take(i as int).push(stco.entries@[i as int].chunk_offset as u64));
                        i = i + 1;
                    }
                    assert(stco_offsets(stco.entries@).take(i as int) =~= stco_offsets(stco.entries@));
                    let ghost before = co64_offsets(co64_entries@);
                    co64_entries.push(Co64Entry { chunk_offset: offset });
                    assert(co64_offsets(co64_entries@) =~= before.push(offset));
                    *self = ChunkOffset::Co64(Co64Box { version: 0, flags: BoxFlags(0), entries: co64_entries });
                } else {
                    let ghost before = stco_offsets(stco.entries@);
                    stco.entries.push(StcoEntry { chunk_offset: offset as u32 });
                    assert(stco_offsets(stco.entries@) =~= before.push(offset));
                }
            },
            ChunkOffset::Co64(co64) => {
                let ghost before = co64_offsets(co64.entries@);
                co64.entries.push(Co64Entry { chunk_offset: offset });
                assert(co64_offsets(co64.entries@) =~= before.push(offset));
            },
        }
    }

    /// Chunk offsets in an `stco` box (version 0, no flags) when all of them
    /// fit in 32 bits, else in a `co64` box.
    pub fn from_offsets(offsets: &[u64]) -> (r: ChunkOffset)
        ensures
            r.offsets() == offsets@,
            (r is Co64) == (exists|i: int| 0 <= i < offsets@.len() && offsets@[i] > u32::MAX),
            r matches ChunkOffset::Stco(b) ==> b.version == 0 && b.flags.0 == 0,
            r matches ChunkOffset::Co64(b) ==> b.version == 0 && b.flags.0 == 0,
    {
        let mut large = false;
        let mut k: usize = 0;
        while k < offsets.len()
            invariant
                k <= offsets@.len(),
                large == (exists|i: int| 0 <= i < k && offsets@[i] > u32::MAX),
            decreases offsets@.len() - k,
        {
            if offsets[k] > 0xFFFF_FFFF {
                large = true;
            }
            k = k + 1;
            assert(large == (exists|i: int| 0 <= i < k && offsets@[i] > u32::MAX)) by {
                if large && !(offsets@[k - 1] > u32::MAX) {
                    let w = choose|i: int| 0 <= i < k && offsets@[i] > u32::MAX;
                    assert(0 <= w < k - 1);
                }
            }
        }
        if large {
            let mut es: Vec<Co64Entry> = Vec::new();
            let mut i: usize = 0;
            while i < offsets.len()
                invariant
                    i <= offsets@.len(),
                    co64_offsets(es@) == offsets@.take(i as int),
                decreases offsets@.len() - i,
            {
                let ghost prev = co64_offsets(es@);
                es.push(Co64Entry { chunk_offset: offsets[i] });
                assert(co64_offsets(es@) =~= prev.push(offsets@[i as int]));
                assert(offsets@.take(i + 1) =~= offsets@.take(i as int).push(offsets@[i as int]));
                i = i + 1;
            }
            assert(offsets@.take(i as int) =~= offsets@);
            ChunkOffset::Co64(Co64Box { version: 0, flags: BoxFlags(0), entries: es })
        } else {
            let mut es: Vec<StcoEntry> = Vec::new();
            let mut i: usize = 0;
            while i < offsets.len()
                invariant
                    i <= offsets@.len(),
                    !(exists|j: int| 0 <= j < offsets@.len() && offsets@[j] > u32::MAX),
                    stco_offsets(es@) == offsets@.take(i as int),
                decreases offsets@.len() - i,
            {
                assert(!(offsets@[i as int] > u32::MAX));
                let ghost prev = stco_offsets(es@);
                es.push(StcoEntry { chunk_offset: offsets[i] as u32 });
                assert(stco_offsets(es@) =~= prev.push(offsets@[i as int]));
                assert(offsets@.take(i + 1) =~= offsets@.take(i as int).push(offsets@[i as int]));
                i = i + 1;
            }
            assert(offsets@.take(i as int) =~= offsets@);
            ChunkOffset::Stco(StcoBox { version: 0, flags: BoxFlags(0), entries: es })
        }
    }
}

impl Default for ChunkOffset {
    fn default() -> (r: ChunkOffset)
        ensures
            r is Stco,
            r.offsets().len() == 0,
    {
        ChunkOffset::Stco(StcoBox { version: 0, flags: BoxFlags(0), entries: Vec::new() })
    }
}


/// Sample Table Box (`stbl`) with its tables decoded.
#[derive(Debug, Clone)]
pub struct StblBox {
    /// Sample Description Box.
    pub stsd: StsdBox,
    /// Decoding Time to Sample Box.
    pub stts: SttsBox,
    /// Sample Size Box (`stsz` or `stz2`).
    pub sample_size: SampleSize,
    /// Sample to Chunk Box.
    pub stsc: StscBox,
    /// Chunk Offset Box (`stco` or `co64`).
    pub chunk_offset: ChunkOffset,
    /// Degradation Priority Box, if any.
    pub stdp: Option<StdpBox>,
    /// Composition Time to Sample Box, if any.
    pub ctts: Option<CttsBox>,
    /// Composition to Decode Box, if any.
    pub cslg: Option<CslgBox>,
    /// Sync Sample Box, if any.
    pub stss: Option<StssBox>,
    /// Shadow Sync Sample Box, if any.
    pub stsh: Option<StshBox>,
    /// Independent and Disposable Samples Box, if any.
    pub sdtp: Option<SdtpBox>,
    /// Sample to Group Boxes.
    pub sbgps: Vec<SbgpBox>,
    /// Sample Group Description Boxes.
    pub sgpds: Vec<SgpdBox>,
}

/// Whether the child boxes `bs` make an owned `stbl` box: exactly one `stsd`,
/// `stts`, `stsc`, sample size box (`stsz` or `stz2`) and chunk offset box
/// (`stco` or `co64`); at most one of each other table; and every child of a
/// known type decoding.
pub open spec fn stbl_children_ok(bs: Seq<Seq<u8>>) -> bool {
    &&& count_code(bs, BoxType::STSD.code()) == 1
        &&& count_code(bs, BoxType::STTS.code()) == 1
        &&& count_code(bs, BoxType::STSC.code()) == 1
        &&& count_code(bs, BoxType::STSZ.code()) + count_code(bs, BoxType::STZ2.code()) == 1
        &&& count_code(bs, BoxType::STCO.code()) + count_code(bs, BoxType::CO64.code()) == 1
        &&& count_code(bs, BoxType::STDP.code()) <= 1
        &&& count_code(bs, BoxType::CTTS.code()) <= 1
        &&& count_code(bs, BoxType::CSLG.code()) <= 1
        &&& count_code(bs, BoxType::STSS.code()) <= 1
        &&& count_code(bs, BoxType::STSH.code()) <= 1
        &&& count_code(bs, BoxType::SDTP.code()) <= 1
        &&& all_accepted::<StsdBox>(payloads_of(bs, BoxType::STSD.code()))
        &&& all_accepted::<StdpBox>(payloads_of(bs, BoxType::STDP.code()))
        &&& all_accepted::<SttsBox>(payloads_of(bs, BoxType::STTS.code()))
        &&& all_accepted::<CttsBox>(payloads_of(bs, BoxType::CTTS.code()))
        &&& all_accepted::<CslgBox>(payloads_of(bs, BoxType::CSLG.code()))
        &&& all_accepted::<StssBox>(payloads_of(bs, BoxType::STSS.code()))
        &&& all_accepted::<StshBox>(payloads_of(bs, BoxType::STSH.code()))
        &&& all_accepted::<SdtpBox>(payloads_of(bs, BoxType::SDTP.code()))
        &&& all_accepted::<StszBox>(payloads_of(bs, BoxType::STSZ.code()))
        &&& all_accepted::<Stz2Box>(payloads_of(bs, BoxType::STZ2.code()))
        &&& all_accepted::<StscBox>(payloads_of(bs, BoxType::STSC.code()))
        &&& all_accepted::<StcoBox>(payloads_of(bs, BoxType::STCO.code()))
        &&& all_accepted::<Co64Box>(payloads_of(bs, BoxType::CO64.code()))
        &&& all_accepted::<SbgpBox>(payloads_of(bs, BoxType::SBGP.code()))
        &&& all_accepted::<SgpdBox>(payloads_of(bs, BoxType::SGPD.code()))
}

/// The payloads an owned `stbl` box accepts: well-formed child boxes that
/// make an `stbl` box.
pub open spec fn stbl_accepts(s: Seq<u8>) -> bool {
    spec_children_ok(s) && stbl_children_ok(spec_children(s))
}

/// Whether `v` is the owned `stbl` box of the child boxes `bs`: each field
/// what its child box decodes to.
pub open spec fn stbl_children_decode(bs: Seq<Seq<u8>>, v: StblBox) -> bool {
    &&& StsdBox::spec_decodes(payloads_of(bs, BoxType::STSD.code())[0], v.stsd)
        &&& opt_decoded::<StdpBox>(payloads_of(bs, BoxType::STDP.code()), v.stdp)
        &&& SttsBox::spec_decodes(payloads_of(bs, BoxType::STTS.code())[0], v.stts)
        &&& opt_decoded::<CttsBox>(payloads_of(bs, BoxType::CTTS.code()), v.ctts)
        &&& opt_decoded::<CslgBox>(payloads_of(bs, BoxType::CSLG.code()), v.cslg)
        &&& opt_decoded::<StssBox>(payloads_of(bs, BoxType::STSS.code()), v.stss)
        &&& opt_decoded::<StshBox>(payloads_of(bs, BoxType::STSH.code()), v.stsh)
        &&& opt_decoded::<SdtpBox>(payloads_of(bs, BoxType::SDTP.code()), v.sdtp)
        &&& StscBox::spec_decodes(payloads_of(bs, BoxType::STSC.code())[0], v.stsc)
        &&& all_decoded::<SbgpBox>(payloads_of(bs, BoxType::SBGP.code()), v.sbgps@)
        &&& all_decoded::<SgpdBox>(payloads_of(bs, BoxType::SGPD.code()), v.sgpds@)
        &&& match v.sample_size {
            SampleSize::Stsz(x) => count_code(bs, BoxType::STSZ.code()) == 1 && StszBox::spec_decodes(payloads_of(bs, BoxType::STSZ.code())[0], x),
            SampleSize::Stz2(x) => count_code(bs, BoxType::STZ2.code()) == 1 && Stz2Box::spec_decodes(payloads_of(bs, BoxType::STZ2.code())[0], x),
        }
        &&& match v.chunk_offset {
            ChunkOffset::Stco(x) => count_code(bs, BoxType::STCO.code()) == 1 && StcoBox::spec_decodes(payloads_of(bs, BoxType::STCO.code())[0], x),
            ChunkOffset::Co64(x) => count_code(bs, BoxType::CO64.code()) == 1 && Co64Box::spec_decodes(payloads_of(bs, BoxType::CO64.code())[0], x),
        }
}

/// Whether the code `c` is of a table that occurs at most once in a `stbl`
/// box (`stsz` and `stz2` share one place, as do `stco` and `co64`).
pub open spec fn stbl_once(c: u32) -> bool {
    ||| c == BoxType::STSD.code()
    ||| c == BoxType::STDP.code()
    ||| c == BoxType::STTS.code()
    ||| c == BoxType::CTTS.code()
    ||| c == BoxType::CSLG.code()
    ||| c == BoxType::STSS.code()
    ||| c == BoxType::STSH.code()
    ||| c == BoxType::SDTP.code()
    ||| c == BoxType::STSZ.code()
    ||| c == BoxType::STZ2.code()
    ||| c == BoxType::STSC.code()
    ||| c == BoxType::STCO.code()
    ||| c == BoxType::CO64.code()
}

/// Whether a table that takes the place of code `c` is among `bs`.
pub open spec fn stbl_seen(bs: Seq<Seq<u8>>, c: u32) -> bool {
    if c == BoxType::STSZ.code() || c == BoxType::STZ2.code() {
        count_code(bs, BoxType::STSZ.code()) + count_code(bs, BoxType::STZ2.code()) >= 1
    } else if c == BoxType::STCO.code() || c == BoxType::CO64.code() {
        count_code(bs, BoxType::STCO.code()) + count_code(bs, BoxType::CO64.code()) >= 1
    } else {
        count_code(bs, c) >= 1
    }
}

/// The code of the first table among `bs` whose place was already taken.
pub open spec fn stbl_first_dup(bs: Seq<Seq<u8>>) -> Option<u32>
    decreases bs.len(),
{
    if bs.len() == 0 {
        None
    } else {
        match stbl_first_dup(bs.drop_last()) {
            Some(c) => Some(c),
            None => if stbl_once(box_code(bs.last())) && stbl_seen(bs.drop_last(), box_code(bs.last())) {
                Some(box_code(bs.last()))
            } else {
                None
            },
        }
    }
}

/// Once a table has come twice, later boxes do not change the first repetition.
proof fn lemma_stbl_first_dup_prefix(a: Seq<Seq<u8>>, b: Seq<Seq<u8>>)
    requires
        stbl_first_dup(a) is Some,
    ensures
        stbl_first_dup(a + b) == stbl_first_dup(a),
    decreases b.len(),
{
    if b.len() == 0 {
        assert(a + b =~= a);
    } else {
        lemma_stbl_first_dup_prefix(a, b.drop_last());
        assert((a + b).drop_last() =~= a + b.drop_last());
    }
}

/// Whether every child of a known type among `bs` decodes.
pub open spec fn stbl_known_accepted(bs: Seq<Seq<u8>>) -> bool {
    &&& all_accepted::<StsdBox>(payloads_of(bs, BoxType::STSD.code()))
    &&& all_accepted::<StdpBox>(payloads_of(bs, BoxType::STDP.code()))
    &&& all_accepted::<SttsBox>(payloads_of(bs, BoxType::STTS.code()))
    &&& all_accepted::<CttsBox>(payloads_of(bs, BoxType::CTTS.code()))
    &&& all_accepted::<CslgBox>(payloads_of(bs, BoxType::CSLG.code()))
    &&& all_accepted::<StssBox>(payloads_of(bs, BoxType::STSS.code()))
    &&& all_accepted::<StshBox>(payloads_of(bs, BoxType::STSH.code()))
    &&& all_accepted::<SdtpBox>(payloads_of(bs, BoxType::SDTP.code()))
    &&& all_accepted::<StszBox>(payloads_of(bs, BoxType::STSZ.code()))
    &&& all_accepted::<Stz2Box>(payloads_of(bs, BoxType::STZ2.code()))
    &&& all_accepted::<StscBox>(payloads_of(bs, BoxType::STSC.code()))
    &&& all_accepted::<StcoBox>(payloads_of(bs, BoxType::STCO.code()))
    &&& all_accepted::<Co64Box>(payloads_of(bs, BoxType::CO64.code()))
    &&& all_accepted::<SbgpBox>(payloads_of(bs, BoxType::SBGP.code()))
    &&& all_accepted::<SgpdBox>(payloads_of(bs, BoxType::SGPD.code()))
}

/// The error of an owned `stbl` box for well-formed children that each
/// decode: `BoxDuplicate` for the first table that comes where one already
/// stands, else `BoxMissing` for the first of `stsd`, `stts`, `stsz` (or
/// `stz2`), `stsc` and `stco` (or `co64`) that is missing, each in the `stbl`
/// box.
pub open spec fn stbl_error(bs: Seq<Seq<u8>>, r: Result<StblBox, Error>) -> bool {
    match stbl_first_dup(bs) {
        Some(d) => is_duplicate_error(r, d, Some(BoxType::STBL)),
        None => {
            let missing = if count_code(bs, BoxType::STSD.code()) == 0 {
                Some(BoxType::STSD)
            } else if count_code(bs, BoxType::STTS.code()) == 0 {
                Some(BoxType::STTS)
            } else if count_code(bs, BoxType::STSZ.code()) + count_code(bs, BoxType::STZ2.code()) == 0 {
                Some(BoxType::STSZ)
            } else if count_code(bs, BoxType::STSC.code()) == 0 {
                Some(BoxType::STSC)
            } else if count_code(bs, BoxType::STCO.code()) + count_code(bs, BoxType::CO64.code()) == 0 {
                Some(BoxType::STCO)
            } else {
                None
            };
            missing matches Some(t) ==> r == Err::<StblBox, Error>(Error {
                kind: ErrorKind::BoxMissing { required: t },
                offset: None,
                box_type: Some(BoxType::STBL),
            })
        },
    }
}

/// The tables of a sample table gathered so far.
struct StblParts {
    stsd: Option<StsdBox>,
    stdp: Option<StdpBox>,
    stts: Option<SttsBox>,
    ctts: Option<CttsBox>,
    cslg: Option<CslgBox>,
    stss: Option<StssBox>,
    stsh: Option<StshBox>,
    sdtp: Option<SdtpBox>,
    stsz: Option<StszBox>,
    stz2: Option<Stz2Box>,
    stsc: Option<StscBox>,
    stco: Option<StcoBox>,
    co64: Option<Co64Box>,
    sbgps: Vec<SbgpBox>,
    sgpds: Vec<SgpdBox>,
}

impl StblParts {
    /// The tables gathered from the child boxes `done`.
    closed spec fn inv(&self, done: Seq<Seq<u8>>) -> bool {
        &&& slot::<StsdBox>(done, BoxType::STSD.code(), self.stsd)
        &&& slot::<StdpBox>(done, BoxType::STDP.code(), self.stdp)
        &&& slot::<SttsBox>(done, BoxType::STTS.code(), self.stts)
        &&& slot::<CttsBox>(done, BoxType::CTTS.code(), self.ctts)
        &&& slot::<CslgBox>(done, BoxType::CSLG.code(), self.cslg)
        &&& slot::<StssBox>(done, BoxType::STSS.code(), self.stss)
        &&& slot::<StshBox>(done, BoxType::STSH.code(), self.stsh)
        &&& slot::<SdtpBox>(done, BoxType::SDTP.code(), self.sdtp)
        &&& slot::<StszBox>(done, BoxType::STSZ.code(), self.stsz)
        &&& slot::<Stz2Box>(done, BoxType::STZ2.code(), self.stz2)
        &&& slot::<StscBox>(done, BoxType::STSC.code(), self.stsc)
        &&& slot::<StcoBox>(done, BoxType::STCO.code(), self.stco)
        &&& slot::<Co64Box>(done, BoxType::CO64.code(), self.co64)
        &&& list_slot::<SbgpBox>(done, BoxType::SBGP.code(), self.sbgps@)
        &&& list_slot::<SgpdBox>(done, BoxType::SGPD.code(), self.sgpds@)
        &&& count_code(done, BoxType::STSZ.code()) + count_code(done, BoxType::STZ2.code()) <= 1
        &&& count_code(done, BoxType::STCO.code()) + count_code(done, BoxType::CO64.code()) <= 1
    }

    /// Nothing gathered from no boxes.
    fn new() -> (r: StblParts)
        ensures
            r.inv(Seq::empty()),
    {
        proof {
            lemma_slot_empty::<StsdBox>(BoxType::STSD.code());
            lemma_slot_empty::<StdpBox>(BoxType::STDP.code());
            lemma_slot_empty::<SttsBox>(BoxType::STTS.code());
            lemma_slot_empty::<CttsBox>(BoxType::CTTS.code());
            lemma_slot_empty::<CslgBox>(BoxType::CSLG.code());
            lemma_slot_empty::<StssBox>(BoxType::STSS.code());
            lemma_slot_empty::<StshBox>(BoxType::STSH.code());
            lemma_slot_empty::<SdtpBox>(BoxType::SDTP.code());
            lemma_slot_empty::<StszBox>(BoxType::STSZ.code());
            lemma_slot_empty::<Stz2Box>(BoxType::STZ2.code());
            lemma_slot_empty::<StscBox>(BoxType::STSC.code());
            lemma_slot_empty::<StcoBox>(BoxType::STCO.code());
            lemma_slot_empty::<Co64Box>(BoxType::CO64.code());
            lemma_slot_empty::<SbgpBox>(BoxType::SBGP.code());
            lemma_slot_empty::<SgpdBox>(BoxType::SGPD.code());
        }
        StblParts { stsd: None, stdp: None, stts: None, ctts: None, cslg: None, stss: None, stsh: None, sdtp: None, stsz: None, stz2: None, stsc: None, stco: None, co64: None, sbgps: Vec::new(), sgpds: Vec::new() }
    }

    /// How many boxes of each table the gathered tables came from.
    proof fn lemma_counts(&self, done: Seq<Seq<u8>>)
        requires
            self.inv(done),
        ensures
            (self.stsd is None) == (count_code(done, BoxType::STSD.code()) == 0),
            count_code(done, BoxType::STSD.code()) <= 1,
            (self.stdp is None) == (count_code(done, BoxType::STDP.code()) == 0),
            count_code(done, BoxType::STDP.code()) <= 1,
            (self.stts is None) == (count_code(done, BoxType::STTS.code()) == 0),
            count_code(done, BoxType::STTS.code()) <= 1,
            (self.ctts is None) == (count_code(done, BoxType::CTTS.code()) == 0),
            count_code(done, BoxType::CTTS.code()) <= 1,
            (self.cslg is None) == (count_code(done, BoxType::CSLG.code()) == 0),
            count_code(done, BoxType::CSLG.code()) <= 1,
            (self.stss is None) == (count_code(done, BoxType::STSS.code()) == 0),
            count_code(done, BoxType::STSS.code()) <= 1,
            (self.stsh is None) == (count_code(done, BoxType::STSH.code()) == 0),
            count_code(done, BoxType::STSH.code()) <= 1,
            (self.sdtp is None) == (count_code(done, BoxType::SDTP.code()) == 0),
            count_code(done, BoxType::SDTP.code()) <= 1,
            (self.stsz is None) == (count_code(done, BoxType::STSZ.code()) == 0),
            count_code(done, BoxType::STSZ.code()) <= 1,
            (self.stz2 is None) == (count_code(done, BoxType::STZ2.code()) == 0),
            count_code(done, BoxType::STZ2.code()) <= 1,
            (self.stsc is None) == (count_code(done, BoxType::STSC.code()) == 0),
            count_code(done, BoxType::STSC.code()) <= 1,
            (self.stco is None) == (count_code(done, BoxType::STCO.code()) == 0),
            count_code(done, BoxType::STCO.code()) <= 1,
            (self.co64 is None) == (count_code(done, BoxType::CO64.code()) == 0),
            count_code(done, BoxType::CO64.code()) <= 1,
    {
        lemma_slot_unfold::<StsdBox>(done, BoxType::STSD.code(), self.stsd);
        lemma_payloads_count(done, BoxType::STSD.code());
        lemma_slot_unfold::<StdpBox>(done, BoxType::STDP.code(), self.stdp);
        lemma_payloads_count(done, BoxType::STDP.code());
        lemma_slot_unfold::<SttsBox>(done, BoxType::STTS.code(), self.stts);
        lemma_payloads_count(done, BoxType::STTS.code());
        lemma_slot_unfold::<CttsBox>(done, BoxType::CTTS.code(), self.ctts);
        lemma_payloads_count(done, BoxType::CTTS.code());
        lemma_slot_unfold::<CslgBox>(done, BoxType::CSLG.code(), self.cslg);
        lemma_payloads_count(done, BoxType::CSLG.code());
        lemma_slot_unfold::<StssBox>(done, BoxType::STSS.code(), self.stss);
        lemma_payloads_count(done, BoxType::STSS.code());
        lemma_slot_unfold::<StshBox>(done, BoxType::STSH.code(), self.stsh);
        lemma_payloads_count(done, BoxType::STSH.code());
        lemma_slot_unfold::<SdtpBox>(done, BoxType::SDTP.code(), self.sdtp);
        lemma_payloads_count(done, BoxType::SDTP.code());
        lemma_slot_unfold::<StszBox>(done, BoxType::STSZ.code(), self.stsz);
        lemma_payloads_count(done, BoxType::STSZ.code());
        lemma_slot_unfold::<Stz2Box>(done, BoxType::STZ2.code(), self.stz2);
        lemma_payloads_count(done, BoxType::STZ2.code());
        lemma_slot_unfold::<StscBox>(done, BoxType::STSC.code(), self.stsc);
        lemma_payloads_count(done, BoxType::STSC.code());
        lemma_slot_unfold::<StcoBox>(done, BoxType::STCO.code(), self.stco);
        lemma_payloads_count(done, BoxType::STCO.code());
        lemma_slot_unfold::<Co64Box>(done, BoxType::CO64.code(), self.co64);
        lemma_payloads_count(done, BoxType::CO64.code());
    }

    /// A box of another type changes nothing.
    proof fn lemma_skip(&self, done: Seq<Seq<u8>>, bb: Seq<u8>)
        requires
            self.inv(done),
            box_code(bb) != BoxType::STSD.code(),
            box_code(bb) != BoxType::STDP.code(),
            box_code(bb) != BoxType::STTS.code(),
            box_code(bb) != BoxType::CTTS.code(),
            box_code(bb) != BoxType::CSLG.code(),
            box_code(bb) != BoxType::STSS.code(),
            box_code(bb) != BoxType::STSH.code(),
            box_code(bb) != BoxType::SDTP.code(),
            box_code(bb) != BoxType::STSZ.code(),
            box_code(bb) != BoxType::STZ2.code(),
            box_code(bb) != BoxType::STSC.code(),
            box_code(bb) != BoxType::STCO.code(),
            box_code(bb) != BoxType::CO64.code(),
            box_code(bb) != BoxType::SBGP.code(),
            box_code(bb) != BoxType::SGPD.code(),
        ensures
            self.inv(done.push(bb)),
    {
        lemma_slot_other::<StsdBox>(done, bb, BoxType::STSD.code(), self.stsd);
        lemma_slot_other::<StdpBox>(done, bb, BoxType::STDP.code(), self.stdp);
        lemma_slot_other::<SttsBox>(done, bb, BoxType::STTS.code(), self.stts);
        lemma_slot_other::<CttsBox>(done, bb, BoxType::CTTS.code(), self.ctts);
        lemma_slot_other::<CslgBox>(done, bb, BoxType::CSLG.code(), self.cslg);
        lemma_slot_other::<StssBox>(done, bb, BoxType::STSS.code(), self.stss);
        lemma_slot_other::<StshBox>(done, bb, BoxType::STSH.code(), self.stsh);
        lemma_slot_other::<SdtpBox>(done, bb, BoxType::SDTP.code(), self.sdtp);
        lemma_slot_other::<StszBox>(done, bb, BoxType::STSZ.code(), self.stsz);
        lemma_slot_other::<Stz2Box>(done, bb, BoxType::STZ2.code(), self.stz2);
        lemma_slot_other::<StscBox>(done, bb, BoxType::STSC.code(), self.stsc);
        lemma_slot_other::<StcoBox>(done, bb, BoxType::STCO.code(), self.stco);
        lemma_slot_other::<Co64Box>(done, bb, BoxType::CO64.code(), self.co64);
        lemma_list_other::<SbgpBox>(done, bb, BoxType::SBGP.code(), self.sbgps@);
        lemma_list_other::<SgpdBox>(done, bb, BoxType::SGPD.code(), self.sgpds@);
        lemma_children_push(done, bb, BoxType::STSZ.code());
        lemma_children_push(done, bb, BoxType::STZ2.code());
        lemma_children_push(done, bb, BoxType::STCO.code());
        lemma_children_push(done, bb, BoxType::CO64.code());
    }

    /// Gathers the `stsd` box `bb`, the first of its kind.
    fn put_stsd(&mut self, x: StsdBox, Ghost(done): Ghost<Seq<Seq<u8>>>, Ghost(bb): Ghost<Seq<u8>>)
        requires
            old(self).inv(done),
            old(self).stsd is None,
            box_code(bb) == BoxType::STSD.code(),
            StsdBox::spec_accepts(box_payload(bb)),
            StsdBox::spec_decodes(box_payload(bb), x),
        ensures
            final(self).inv(done.push(bb)),
    {
        proof {
            lemma_slot_unfold::<StsdBox>(done, BoxType::STSD.code(), old(self).stsd);
            lemma_payloads_count(done, BoxType::STSD.code());
            lemma_slot_fill::<StsdBox>(done, bb, BoxType::STSD.code(), x);
            lemma_slot_other::<StdpBox>(done, bb, BoxType::STDP.code(), old(self).stdp);
            lemma_slot_other::<SttsBox>(done, bb, BoxType::STTS.code(), old(self).stts);
            lemma_slot_other::<CttsBox>(done, bb, BoxType::CTTS.code(), old(self).ctts);
            lemma_slot_other::<CslgBox>(done, bb, BoxType::CSLG.code(), old(self).cslg);
            lemma_slot_other::<StssBox>(done, bb, BoxType::STSS.code(), old(self).stss);
            lemma_slot_other::<StshBox>(done, bb, BoxType::STSH.code(), old(self).stsh);
            lemma_slot_other::<SdtpBox>(done, bb, BoxType::SDTP.code(), old(self).sdtp);
            lemma_slot_other::<StszBox>(done, bb, BoxType::STSZ.code(), old(self).stsz);
            lemma_slot_other::<Stz2Box>(done, bb, BoxType::STZ2.code(), old(self).stz2);
            lemma_slot_other::<StscBox>(done, bb, BoxType::STSC.code(), old(self).stsc);
            lemma_slot_other::<StcoBox>(done, bb, BoxType::STCO.code(), old(self).stco);
            lemma_slot_other::<Co64Box>(done, bb, BoxType::CO64.code(), old(self).co64);
            lemma_list_other::<SbgpBox>(done, bb, BoxType::SBGP.code(), old(self).sbgps@);
            lemma_list_other::<SgpdBox>(done, bb, BoxType::SGPD.code(), old(self).sgpds@);
            lemma_children_push(done, bb, BoxType::STSZ.code());
            lemma_children_push(done, bb, BoxType::STZ2.code());
            lemma_children_push(done, bb, BoxType::STCO.code());
            lemma_children_push(done, bb, BoxType::CO64.code());
        }
        self.stsd = Some(x);
    }

    /// A second `stsd` box after `done` makes the children no `stbl` box.
    proof fn lemma_dup_stsd(&self, done: Seq<Seq<u8>>, bb: Seq<u8>, after: Seq<Seq<u8>>)
        requires
            self.inv(done),
            self.stsd is Some,
            box_code(bb) == BoxType::STSD.code(),
        ensures
            !stbl_children_ok(done.push(bb) + after),
    {
        lemma_slot_unfold::<StsdBox>(done, BoxType::STSD.code(), self.stsd);
        lemma_payloads_count(done, BoxType::STSD.code());
        lemma_children_push(done, bb, BoxType::STSD.code());
        lemma_count_grows(done.push(bb), after, BoxType::STSD.code());
    }

    /// Gathers the `stdp` box `bb`, the first of its kind.
    fn put_stdp(&mut self, x: StdpBox, Ghost(done): Ghost<Seq<Seq<u8>>>, Ghost(bb): Ghost<Seq<u8>>)
        requires
            old(self).inv(done),
            old(self).stdp is None,
            box_code(bb) == BoxType::STDP.code(),
            StdpBox::spec_accepts(box_payload(bb)),
            StdpBox::spec_decodes(box_payload(bb), x),
        ensures
            final(self).inv(done.push(bb)),
    {
        proof {
            lemma_slot_unfold::<StdpBox>(done, BoxType::STDP.code(), old(self).stdp);
            lemma_payloads_count(done, BoxType::STDP.code());
            lemma_slot_fill::<StdpBox>(done, bb, BoxType::STDP.code(), x);
            lemma_slot_other::<StsdBox>(done, bb, BoxType::STSD.code(), old(self).stsd);
            lemma_slot_other::<SttsBox>(done, bb, BoxType::STTS.code(), old(self).stts);
            lemma_slot_other::<CttsBox>(done, bb, BoxType::CTTS.code(), old(self).ctts);
            lemma_slot_other::<CslgBox>(done, bb, BoxType::CSLG.code(), old(self).cslg);
            lemma_slot_other::<StssBox>(done, bb, BoxType::STSS.code(), old(self).stss);
            lemma_slot_other::<StshBox>(done, bb, BoxType::STSH.code(), old(self).stsh);
            lemma_slot_other::<SdtpBox>(done, bb, BoxType::SDTP.code(), old(self).sdtp);
            lemma_slot_other::<StszBox>(done, bb, BoxType::STSZ.code(), old(self).stsz);
            lemma_slot_other::<Stz2Box>(done, bb, BoxType::STZ2.code(), old(self).stz2);
            lemma_slot_other::<StscBox>(done, bb, BoxType::STSC.code(), old(self).stsc);
            lemma_slot_other::<StcoBox>(done, bb, BoxType::STCO.code(), old(self).stco);
            lemma_slot_other::<Co64Box>(done, bb, BoxType::CO64.code(), old(self).co64);
            lemma_list_other::<SbgpBox>(done, bb, BoxType::SBGP.code(), old(self).sbgps@);
            lemma_list_other::<SgpdBox>(done, bb, BoxType::SGPD.code(), old(self).sgpds@);
            lemma_children_push(done, bb, BoxType::STSZ.code());
            lemma_children_push(done, bb, BoxType::STZ2.code());
            lemma_children_push(done, bb, BoxType::STCO.code());
            lemma_children_push(done, bb, BoxType::CO64.code());
        }
        self.stdp = Some(x);
    }

    /// A second `stdp` box after `done` makes the children no `stbl` box.
    proof fn lemma_dup_stdp(&self, done: Seq<Seq<u8>>, bb: Seq<u8>, after: Seq<Seq<u8>>)
        requires
            self.inv(done),
            self.stdp is Some,
            box_code(bb) == BoxType::STDP.code(),
        ensures
            !stbl_children_ok(done.push(bb) + after),
    {
        lemma_slot_unfold::<StdpBox>(done, BoxType::STDP.code(), self.stdp);
        lemma_payloads_count(done, BoxType::STDP.code());
        lemma_children_push(done, bb, BoxType::STDP.code());
        lemma_count_grows(done.push(bb), after, BoxType::STDP.code());
    }

    /// Gathers the `stts` box `bb`, the first of its kind.
    fn put_stts(&mut self, x: SttsBox, Ghost(done): Ghost<Seq<Seq<u8>>>, Ghost(bb): Ghost<Seq<u8>>)
        requires
            old(self).inv(done),
            old(self).stts is None,
            box_code(bb) == BoxType::STTS.code(),
            SttsBox::spec_accepts(box_payload(bb)),
            SttsBox::spec_decodes(box_payload(bb), x),
        ensures
            final(self).inv(done.push(bb)),
    {
        proof {
            lemma_slot_unfold::<SttsBox>(done, BoxType::STTS.code(), old(self).stts);
            lemma_payloads_count(done, BoxType::STTS.code());
            lemma_slot_fill::<SttsBox>(done, bb, BoxType::STTS.code(), x);
            lemma_slot_other::<StsdBox>(done, bb, BoxType::STSD.code(), old(self).stsd);
            lemma_slot_other::<StdpBox>(done, bb, BoxType::STDP.code(), old(self).stdp);
            lemma_slot_other::<CttsBox>(done, bb, BoxType::CTTS.code(), old(self).ctts);
            lemma_slot_other::<CslgBox>(done, bb, BoxType::CSLG.code(), old(self).cslg);
            lemma_slot_other::<StssBox>(done, bb, BoxType::STSS.code(), old(self).stss);
            lemma_slot_other::<StshBox>(done, bb, BoxType::STSH.code(), old(self).stsh);
            lemma_slot_other::<SdtpBox>(done, bb, BoxType::SDTP.code(), old(self).sdtp);
            lemma_slot_other::<StszBox>(done, bb, BoxType::STSZ.code(), old(self).stsz);
            lemma_slot_other::<Stz2Box>(done, bb, BoxType::STZ2.code(), old(self).stz2);
            lemma_slot_other::<StscBox>(done, bb, BoxType::STSC.code(), old(self).stsc);
            lemma_slot_other::<StcoBox>(done, bb, BoxType::STCO.code(), old(self).stco);
            lemma_slot_other::<Co64Box>(done, bb, BoxType::CO64.code(), old(self).co64);
            lemma_list_other::<SbgpBox>(done, bb, BoxType::SBGP.code(), old(self).sbgps@);
            lemma_list_other::<SgpdBox>(done, bb, BoxType::SGPD.code(), old(self).sgpds@);
            lemma_children_push(done, bb, BoxType::STSZ.code());
            lemma_children_push(done, bb, BoxType::STZ2.code());
            lemma_children_push(done, bb, BoxType::STCO.code());
            lemma_children_push(done, bb, BoxType::CO64.code());
        }
        self.stts = Some(x);
    }

    /// A second `stts` box after `done` makes the children no `stbl` box.
    proof fn lemma_dup_stts(&self, done: Seq<Seq<u8>>, bb: Seq<u8>, after: Seq<Seq<u8>>)
        requires
            self.inv(done),
            self.stts is Some,
            box_code(bb) == BoxType::STTS.code(),
        ensures
            !stbl_children_ok(done.push(bb) + after),
    {
        lemma_slot_unfold::<SttsBox>(done, BoxType::STTS.code(), self.stts);
        lemma_payloads_count(done, BoxType::STTS.code());
        lemma_children_push(done, bb, BoxType::STTS.code());
        lemma_count_grows(done.push(bb), after, BoxType::STTS.code());
    }

    /// Gathers the `ctts` box `bb`, the first of its kind.
    fn put_ctts(&mut self, x: CttsBox, Ghost(done): Ghost<Seq<Seq<u8>>>, Ghost(bb): Ghost<Seq<u8>>)
        requires
            old(self).inv(done),
            old(self).ctts is None,
            box_code(bb) == BoxType::CTTS.code(),
            CttsBox::spec_accepts(box_payload(bb)),
            CttsBox::spec_decodes(box_payload(bb), x),
        ensures
            final(self).inv(done.push(bb)),
    {
        proof {
            lemma_slot_unfold::<CttsBox>(done, BoxType::CTTS.code(), old(self).ctts);
            lemma_payloads_count(done, BoxType::CTTS.code());
            lemma_slot_fill::<CttsBox>(done, bb, BoxType::CTTS.code(), x);
            lemma_slot_other::<StsdBox>(done, bb, BoxType::STSD.code(), old(self).stsd);
            lemma_slot_other::<StdpBox>(done, bb, BoxType::STDP.code(), old(self).stdp);
            lemma_slot_other::<SttsBox>(done, bb, BoxType::STTS.code(), old(self).stts);
            lemma_slot_other::<CslgBox>(done, bb, BoxType::CSLG.code(), old(self).cslg);
            lemma_slot_other::<StssBox>(done, bb, BoxType::STSS.code(), old(self).stss);
            lemma_slot_other::<StshBox>(done, bb, BoxType::STSH.code(), old(self).stsh);
            lemma_slot_other::<SdtpBox>(done, bb, BoxType::SDTP.code(), old(self).sdtp);
            lemma_slot_other::<StszBox>(done, bb, BoxType::STSZ.code(), old(self).stsz);
            lemma_slot_other::<Stz2Box>(done, bb, BoxType::STZ2.code(), old(self).stz2);
            lemma_slot_other::<StscBox>(done, bb, BoxType::STSC.code(), old(self).stsc);
            lemma_slot_other::<StcoBox>(done, bb, BoxType::STCO.code(), old(self).stco);
            lemma_slot_other::<Co64Box>(done, bb, BoxType::CO64.code(), old(self).co64);
            lemma_list_other::<SbgpBox>(done, bb, BoxType::SBGP.code(), old(self).sbgps@);
            lemma_list_other::<SgpdBox>(done, bb, BoxType::SGPD.code(), old(self).sgpds@);
            lemma_children_push(done, bb, BoxType::STSZ.code());
            lemma_children_push(done, bb, BoxType::STZ2.code());
            lemma_children_push(done, bb, BoxType::STCO.code());
            lemma_children_push(done, bb, BoxType::CO64.code());
        }
        self.ctts = Some(x);
    }

    /// A second `ctts` box after `done` makes the children no `stbl` box.
    proof fn lemma_dup_ctts(&self, done: Seq<Seq<u8>>, bb: Seq<u8>, after: Seq<Seq<u8>>)
        requires
            self.inv(done),
            self.ctts is Some,
            box_code(bb) == BoxType::CTTS.code(),
        ensures
            !stbl_children_ok(done.push(bb) + after),
    {
        lemma_slot_unfold::<CttsBox>(done, BoxType::CTTS.code(), self.ctts);
        lemma_payloads_count(done, BoxType::CTTS.code());
        lemma_children_push(done, bb, BoxType::CTTS.code());
        lemma_count_grows(done.push(bb), after, BoxType::CTTS.code());
    }

    /// Gathers the `cslg` box `bb`, the first of its kind.
    fn put_cslg(&mut self, x: CslgBox, Ghost(done): Ghost<Seq<Seq<u8>>>, Ghost(bb): Ghost<Seq<u8>>)
        requires
            old(self).inv(done),
            old(self).cslg is None,
            box_code(bb) == BoxType::CSLG.code(),
            CslgBox::spec_accepts(box_payload(bb)),
            CslgBox::spec_decodes(box_payload(bb), x),
        ensures
            final(self).inv(done.push(bb)),
    {
        proof {
            lemma_slot_unfold::<CslgBox>(done, BoxType::CSLG.code(), old(self).cslg);
            lemma_payloads_count(done, BoxType::CSLG.code());
            lemma_slot_fill::<CslgBox>(done, bb, BoxType::CSLG.code(), x);
            lemma_slot_other::<StsdBox>(done, bb, BoxType::STSD.code(), old(self).stsd);
            lemma_slot_other::<StdpBox>(done, bb, BoxType::STDP.code(), old(self).stdp);
            lemma_slot_other::<SttsBox>(done, bb, BoxType::STTS.code(), old(self).stts);
            lemma_slot_other::<CttsBox>(done, bb, BoxType::CTTS.code(), old(self).ctts);
            lemma_slot_other::<StssBox>(done, bb, BoxType::STSS.code(), old(self).stss);
            lemma_slot_other::<StshBox>(done, bb, BoxType::STSH.code(), old(self).stsh);
            lemma_slot_other::<SdtpBox>(done, bb, BoxType::SDTP.code(), old(self).sdtp);
            lemma_slot_other::<StszBox>(done, bb, BoxType::STSZ.code(), old(self).stsz);
            lemma_slot_other::<Stz2Box>(done, bb, BoxType::STZ2.code(), old(self).stz2);
            lemma_slot_other::<StscBox>(done, bb, BoxType::STSC.code(), old(self).stsc);
            lemma_slot_other::<StcoBox>(done, bb, BoxType::STCO.code(), old(self).stco);
            lemma_slot_other::<Co64Box>(done, bb, BoxType::CO64.code(), old(self).co64);
            lemma_list_other::<SbgpBox>(done, bb, BoxType::SBGP.code(), old(self).sbgps@);
            lemma_list_other::<SgpdBox>(done, bb, BoxType::SGPD.code(), old(self).sgpds@);
            lemma_children_push(done, bb, BoxType::STSZ.code());
            lemma_children_push(done, bb, BoxType::STZ2.code());
            lemma_children_push(done, bb, BoxType::STCO.code());
            lemma_children_push(done, bb, BoxType::CO64.code());
        }
        self.cslg = Some(x);
    }

    /// A second `cslg` box after `done` makes the children no `stbl` box.
    proof fn lemma_dup_cslg(&self, done: Seq<Seq<u8>>, bb: Seq<u8>, after: Seq<Seq<u8>>)
        requires
            self.inv(done),
            self.cslg is Some,
            box_code(bb) == BoxType::CSLG.code(),
        ensures
            !stbl_children_ok(done.push(bb) + after),
    {
        lemma_slot_unfold::<CslgBox>(done, BoxType::CSLG.code(), self.cslg);
        lemma_payloads_count(done, BoxType::CSLG.code());
        lemma_children_push(done, bb, BoxType::CSLG.code());
        lemma_count_grows(done.push(bb), after, BoxType::CSLG.code());
    }

    /// Gathers the `stss` box `bb`, the first of its kind.
    fn put_stss(&mut self, x: StssBox, Ghost(done): Ghost<Seq<Seq<u8>>>, Ghost(bb): Ghost<Seq<u8>>)
        requires
            old(self).inv(done),
            old(self).stss is None,
            box_code(bb) == BoxType::STSS.code(),
            StssBox::spec_accepts(box_payload(bb)),
            StssBox::spec_decodes(box_payload(bb), x),
        ensures
            final(self).inv(done.push(bb)),
    {
        proof {
            lemma_slot_unfold::<StssBox>(done, BoxType::STSS.code(), old(self).stss);
            lemma_payloads_count(done, BoxType::STSS.code());
            lemma_slot_fill::<StssBox>(done, bb, BoxType::STSS.code(), x);
            lemma_slot_other::<StsdBox>(done, bb, BoxType::STSD.code(), old(self).stsd);
            lemma_slot_other::<StdpBox>(done, bb, BoxType::STDP.code(), old(self).stdp);
            lemma_slot_other::<SttsBox>(done, bb, BoxType::STTS.code(), old(self).stts);
            lemma_slot_other::<CttsBox>(done, bb, BoxType::CTTS.code(), old(self).ctts);
            lemma_slot_other::<CslgBox>(done, bb, BoxType::CSLG.code(), old(self).cslg);
            lemma_slot_other::<StshBox>(done, bb, BoxType::STSH.code(), old(self).stsh);
            lemma_slot_other::<SdtpBox>(done, bb, BoxType::SDTP.code(), old(self).sdtp);
            lemma_slot_other::<StszBox>(done, bb, BoxType::STSZ.code(), old(self).stsz);
            lemma_slot_other::<Stz2Box>(done, bb, BoxType::STZ2.code(), old(self).stz2);
            lemma_slot_other::<StscBox>(done, bb, BoxType::STSC.code(), old(self).stsc);
            lemma_slot_other::<StcoBox>(done, bb, BoxType::STCO.code(), old(self).stco);
            lemma_slot_other::<Co64Box>(done, bb, BoxType::CO64.code(), old(self).co64);
            lemma_list_other::<SbgpBox>(done, bb, BoxType::SBGP.code(), old(self).sbgps@);
            lemma_list_other::<SgpdBox>(done, bb, BoxType::SGPD.code(), old(self).sgpds@);
            lemma_children_push(done, bb, BoxType::STSZ.code());
            lemma_children_push(done, bb, BoxType::STZ2.code());
            lemma_children_push(done, bb, BoxType::STCO.code());
            lemma_children_push(done, bb, BoxType::CO64.code());
        }
        self.stss = Some(x);
    }

    /// A second `stss` box after `done` makes the children no `stbl` box.
    proof fn lemma_dup_stss(&self, done: Seq<Seq<u8>>, bb: Seq<u8>, after: Seq<Seq<u8>>)
        requires
            self.inv(done),
            self.stss is Some,
            box_code(bb) == BoxType::STSS.code(),
        ensures
            !stbl_children_ok(done.push(bb) + after),
    {
        lemma_slot_unfold::<StssBox>(done, BoxType::STSS.code(), self.stss);
        lemma_payloads_count(done, BoxType::STSS.code());
        lemma_children_push(done, bb, BoxType::STSS.code());
        lemma_count_grows(done.push(bb), after, BoxType::STSS.code());
    }

    /// Gathers the `stsh` box `bb`, the first of its kind.
    fn put_stsh(&mut self, x: StshBox, Ghost(done): Ghost<Seq<Seq<u8>>>, Ghost(bb): Ghost<Seq<u8>>)
        requires
            old(self).inv(done),
            old(self).stsh is None,
            box_code(bb) == BoxType::STSH.code(),
            StshBox::spec_accepts(box_payload(bb)),
            StshBox::spec_decodes(box_payload(bb), x),
        ensures
            final(self).inv(done.push(bb)),
    {
        proof {
            lemma_slot_unfold::<StshBox>(done, BoxType::STSH.code(), old(self).stsh);
            lemma_payloads_count(done, BoxType::STSH.code());
            lemma_slot_fill::<StshBox>(done, bb, BoxType::STSH.code(), x);
            lemma_slot_other::<StsdBox>(done, bb, BoxType::STSD.code(), old(self).stsd);
            lemma_slot_other::<StdpBox>(done, bb, BoxType::STDP.code(), old(self).stdp);
            lemma_slot_other::<SttsBox>(done, bb, BoxType::STTS.code(), old(self).stts);
            lemma_slot_other::<CttsBox>(done, bb, BoxType::CTTS.code(), old(self).ctts);
            lemma_slot_other::<CslgBox>(done, bb, BoxType::CSLG.code(), old(self).cslg);
            lemma_slot_other::<StssBox>(done, bb, BoxType::STSS.code(), old(self).stss);
            lemma_slot_other::<SdtpBox>(done, bb, BoxType::SDTP.code(), old(self).sdtp);
            lemma_slot_other::<StszBox>(done, bb, BoxType::STSZ.code(), old(self).stsz);
            lemma_slot_other::<Stz2Box>(done, bb, BoxType::STZ2.code(), old(self).stz2);
            lemma_slot_other::<StscBox>(done, bb, BoxType::STSC.code(), old(self).stsc);
            lemma_slot_other::<StcoBox>(done, bb, BoxType::STCO.code(), old(self).stco);
            lemma_slot_other::<Co64Box>(done, bb, BoxType::CO64.code(), old(self).co64);
            lemma_list_other::<SbgpBox>(done, bb, BoxType::SBGP.code(), old(self).sbgps@);
            lemma_list_other::<SgpdBox>(done, bb, BoxType::SGPD.code(), old(self).sgpds@);
            lemma_children_push(done, bb, BoxType::STSZ.code());
            lemma_children_push(done, bb, BoxType::STZ2.code());
            lemma_children_push(done, bb, BoxType::STCO.code());
            lemma_children_push(done, bb, BoxType::CO64.code());
        }
        self.stsh = Some(x);
    }

    /// A second `stsh` box after `done` makes the children no `stbl` box.
    proof fn lemma_dup_stsh(&self, done: Seq<Seq<u8>>, bb: Seq<u8>, after: Seq<Seq<u8>>)
        requires
            self.inv(done),
            self.stsh is Some,
            box_code(bb) == BoxType::STSH.code(),
        ensures
            !stbl_children_ok(done.push(bb) + after),
    {
        lemma_slot_unfold::<StshBox>(done, BoxType::STSH.code(), self.stsh);
        lemma_payloads_count(done, BoxType::STSH.code());
        lemma_children_push(done, bb, BoxType::STSH.code());
        lemma_count_grows(done.push(bb), after, BoxType::STSH.code());
    }

    /// Gathers the `sdtp` box `bb`, the first of its kind.
    fn put_sdtp(&mut self, x: SdtpBox, Ghost(done): Ghost<Seq<Seq<u8>>>, Ghost(bb): Ghost<Seq<u8>>)
        requires
            old(self).inv(done),
            old(self).sdtp is None,
            box_code(bb) == BoxType::SDTP.code(),
            SdtpBox::spec_accepts(box_payload(bb)),
            SdtpBox::spec_decodes(box_payload(bb), x),
        ensures
            final(self).inv(done.push(bb)),
    {
        proof {
            lemma_slot_unfold::<SdtpBox>(done, BoxType::SDTP.code(), old(self).sdtp);
            lemma_payloads_count(done, BoxType::SDTP.code());
            lemma_slot_fill::<SdtpBox>(done, bb, BoxType::SDTP.code(), x);
            lemma_slot_other::<StsdBox>(done, bb, BoxType::STSD.code(), old(self).stsd);
            lemma_slot_other::<StdpBox>(done, bb, BoxType::STDP.code(), old(self).stdp);
            lemma_slot_other::<SttsBox>(done, bb, BoxType::STTS.code(), old(self).stts);
            lemma_slot_other::<CttsBox>(done, bb, BoxType::CTTS.code(), old(self).ctts);
            lemma_slot_other::<CslgBox>(done, bb, BoxType::CSLG.code(), old(self).cslg);
            lemma_slot_other::<StssBox>(done, bb, BoxType::STSS.code(), old(self).stss);
            lemma_slot_other::<StshBox>(done, bb, BoxType::STSH.code(), old(self).stsh);
            lemma_slot_other::<StszBox>(done, bb, BoxType::STSZ.code(), old(self).stsz);
            lemma_slot_other::<Stz2Box>(done, bb, BoxType::STZ2.code(), old(self).stz2);
            lemma_slot_other::<StscBox>(done, bb, BoxType::STSC.code(), old(self).stsc);
            lemma_slot_other::<StcoBox>(done, bb, BoxType::STCO.code(), old(self).stco);
            lemma_slot_other::<Co64Box>(done, bb, BoxType::CO64.code(), old(self).co64);
            lemma_list_other::<SbgpBox>(done, bb, BoxType::SBGP.code(), old(self).sbgps@);
            lemma_list_other::<SgpdBox>(done, bb, BoxType::SGPD.code(), old(self).sgpds@);
            lemma_children_push(done, bb, BoxType::STSZ.code());
            lemma_children_push(done, bb, BoxType::STZ2.code());
            lemma_children_push(done, bb, BoxType::STCO.code());
            lemma_children_push(done, bb, BoxType::CO64.code());
        }
        self.sdtp = Some(x);
    }

    /// A second `sdtp` box after `done` makes the children no `stbl` box.
    proof fn lemma_dup_sdtp(&self, done: Seq<Seq<u8>>, bb: Seq<u8>, after: Seq<Seq<u8>>)
        requires
            self.inv(done),
            self.sdtp is Some,
            box_code(bb) == BoxType::SDTP.code(),
        ensures
            !stbl_children_ok(done.push(bb) + after),
    {
        lemma_slot_unfold::<SdtpBox>(done, BoxType::SDTP.code(), self.sdtp);
        lemma_payloads_count(done, BoxType::SDTP.code());
        lemma_children_push(done, bb, BoxType::SDTP.code());
        lemma_count_grows(done.push(bb), after, BoxType::SDTP.code());
    }

    /// Gathers the `stsz` box `bb`, the first of its kind.
    fn put_stsz(&mut self, x: StszBox, Ghost(done): Ghost<Seq<Seq<u8>>>, Ghost(bb): Ghost<Seq<u8>>)
        requires
            old(self).inv(done),
            old(self).stsz is None,
            old(self).stz2 is None,
            box_code(bb) == BoxType::STSZ.code(),
            StszBox::spec_accepts(box_payload(bb)),
            StszBox::spec_decodes(box_payload(bb), x),
        ensures
            final(self).inv(done.push(bb)),
    {
        proof {
            lemma_slot_unfold::<StszBox>(done, BoxType::STSZ.code(), old(self).stsz);
            lemma_payloads_count(done, BoxType::STSZ.code());
            lemma_slot_unfold::<Stz2Box>(done, BoxType::STZ2.code(), old(self).stz2);
            lemma_payloads_count(done, BoxType::STZ2.code());
            lemma_slot_fill::<StszBox>(done, bb, BoxType::STSZ.code(), x);
            lemma_slot_other::<StsdBox>(done, bb, BoxType::STSD.code(), old(self).stsd);
            lemma_slot_other::<StdpBox>(done, bb, BoxType::STDP.code(), old(self).stdp);
            lemma_slot_other::<SttsBox>(done, bb, BoxType::STTS.code(), old(self).stts);
            lemma_slot_other::<CttsBox>(done, bb, BoxType::CTTS.code(), old(self).ctts);
            lemma_slot_other::<CslgBox>(done, bb, BoxType::CSLG.code(), old(self).cslg);
            lemma_slot_other::<StssBox>(done, bb, BoxType::STSS.code(), old(self).stss);
            lemma_slot_other::<StshBox>(done, bb, BoxType::STSH.code(), old(self).stsh);
            lemma_slot_other::<SdtpBox>(done, bb, BoxType::SDTP.code(), old(self).sdtp);
            lemma_slot_other::<Stz2Box>(done, bb, BoxType::STZ2.code(), old(self).stz2);
            lemma_slot_other::<StscBox>(done, bb, BoxType::STSC.code(), old(self).stsc);
            lemma_slot_other::<StcoBox>(done, bb, BoxType::STCO.code(), old(self).stco);
            lemma_slot_other::<Co64Box>(done, bb, BoxType::CO64.code(), old(self).co64);
            lemma_list_other::<SbgpBox>(done, bb, BoxType::SBGP.code(), old(self).sbgps@);
            lemma_list_other::<SgpdBox>(done, bb, BoxType::SGPD.code(), old(self).sgpds@);
            lemma_children_push(done, bb, BoxType::STSZ.code());
            lemma_children_push(done, bb, BoxType::STZ2.code());
            lemma_children_push(done, bb, BoxType::STCO.code());
            lemma_children_push(done, bb, BoxType::CO64.code());
        }
        self.stsz = Some(x);
    }

    /// A second `stsz` box after `done` makes the children no `stbl` box.
    proof fn lemma_dup_stsz(&self, done: Seq<Seq<u8>>, bb: Seq<u8>, after: Seq<Seq<u8>>)
        requires
            self.inv(done),
            self.stsz is Some || self.stz2 is Some,
            box_code(bb) == BoxType::STSZ.code(),
        ensures
            !stbl_children_ok(done.push(bb) + after),
    {
        lemma_slot_unfold::<StszBox>(done, BoxType::STSZ.code(), self.stsz);
        lemma_payloads_count(done, BoxType::STSZ.code());
        lemma_children_push(done, bb, BoxType::STSZ.code());
        lemma_count_grows(done.push(bb), after, BoxType::STSZ.code());
        lemma_slot_unfold::<Stz2Box>(done, BoxType::STZ2.code(), self.stz2);
        lemma_payloads_count(done, BoxType::STZ2.code());
        lemma_children_push(done, bb, BoxType::STZ2.code());
        lemma_count_grows(done.push(bb), after, BoxType::STZ2.code());
    }

    /// Gathers the `stz2` box `bb`, the first of its kind.
    fn put_stz2(&mut self, x: Stz2Box, Ghost(done): Ghost<Seq<Seq<u8>>>, Ghost(bb): Ghost<Seq<u8>>)
        requires
            old(self).inv(done),
            old(self).stz2 is None,
            old(self).stsz is None,
            box_code(bb) == BoxType::STZ2.code(),
            Stz2Box::spec_accepts(box_payload(bb)),
            Stz2Box::spec_decodes(box_payload(bb), x),
        ensures
            final(self).inv(done.push(bb)),
    {
        proof {
            lemma_slot_unfold::<Stz2Box>(done, BoxType::STZ2.code(), old(self).stz2);
            lemma_payloads_count(done, BoxType::STZ2.code());
            lemma_slot_unfold::<StszBox>(done, BoxType::STSZ.code(), old(self).stsz);
            lemma_payloads_count(done, BoxType::STSZ.code());
            lemma_slot_fill::<Stz2Box>(done, bb, BoxType::STZ2.code(), x);
            lemma_slot_other::<StsdBox>(done, bb, BoxType::STSD.code(), old(self).stsd);
            lemma_slot_other::<StdpBox>(done, bb, BoxType::STDP.code(), old(self).stdp);
            lemma_slot_other::<SttsBox>(done, bb, BoxType::STTS.code(), old(self).stts);
            lemma_slot_other::<CttsBox>(done, bb, BoxType::CTTS.code(), old(self).ctts);
            lemma_slot_other::<CslgBox>(done, bb, BoxType::CSLG.code(), old(self).cslg);
            lemma_slot_other::<StssBox>(done, bb, BoxType::STSS.code(), old(self).stss);
            lemma_slot_other::<StshBox>(done, bb, BoxType::STSH.code(), old(self).stsh);
            lemma_slot_other::<SdtpBox>(done, bb, BoxType::SDTP.code(), old(self).sdtp);
            lemma_slot_other::<StszBox>(done, bb, BoxType::STSZ.code(), old(self).stsz);
            lemma_slot_other::<StscBox>(done, bb, BoxType::STSC.code(), old(self).stsc);
            lemma_slot_other::<StcoBox>(done, bb, BoxType::STCO.code(), old(self).stco);
            lemma_slot_other::<Co64Box>(done, bb, BoxType::CO64.code(), old(self).co64);
            lemma_list_other::<SbgpBox>(done, bb, BoxType::SBGP.code(), old(self).sbgps@);
            lemma_list_other::<SgpdBox>(done, bb, BoxType::SGPD.code(), old(self).sgpds@);
            lemma_children_push(done, bb, BoxType::STSZ.code());
            lemma_children_push(done, bb, BoxType::STZ2.code());
            lemma_children_push(done, bb, BoxType::STCO.code());
            lemma_children_push(done, bb, BoxType::CO64.code());
        }
        self.stz2 = Some(x);
    }

    /// A second `stz2` box after `done` makes the children no `stbl` box.
    proof fn lemma_dup_stz2(&self, done: Seq<Seq<u8>>, bb: Seq<u8>, after: Seq<Seq<u8>>)
        requires
            self.inv(done),
            self.stz2 is Some || self.stsz is Some,
            box_code(bb) == BoxType::STZ2.code(),
        ensures
            !stbl_children_ok(done.push(bb) + after),
    {
        lemma_slot_unfold::<Stz2Box>(done, BoxType::STZ2.code(), self.stz2);
        lemma_payloads_count(done, BoxType::STZ2.code());
        lemma_children_push(done, bb, BoxType::STZ2.code());
        lemma_count_grows(done.push(bb), after, BoxType::STZ2.code());
        lemma_slot_unfold::<StszBox>(done, BoxType::STSZ.code(), self.stsz);
        lemma_payloads_count(done, BoxType::STSZ.code());
        lemma_children_push(done, bb, BoxType::STSZ.code());
        lemma_count_grows(done.push(bb), after, BoxType::STSZ.code());
    }

    /// Gathers the `stsc` box `bb`, the first of its kind.
    fn put_stsc(&mut self, x: StscBox, Ghost(done): Ghost<Seq<Seq<u8>>>, Ghost(bb): Ghost<Seq<u8>>)
        requires
            old(self).inv(done),
            old(self).stsc is None,
            box_code(bb) == BoxType::STSC.code(),
            StscBox::spec_accepts(box_payload(bb)),
            StscBox::spec_decodes(box_payload(bb), x),
        ensures
            final(self).inv(done.push(bb)),
    {
        proof {
            lemma_slot_unfold::<StscBox>(done, BoxType::STSC.code(), old(self).stsc);
            lemma_payloads_count(done, BoxType::STSC.code());
            lemma_slot_fill::<StscBox>(done, bb, BoxType::STSC.code(), x);
            lemma_slot_other::<StsdBox>(done, bb, BoxType::STSD.code(), old(self).stsd);
            lemma_slot_other::<StdpBox>(done, bb, BoxType::STDP.code(), old(self).stdp);
            lemma_slot_other::<SttsBox>(done, bb, BoxType::STTS.code(), old(self).stts);
            lemma_slot_other::<CttsBox>(done, bb, BoxType::CTTS.code(), old(self).ctts);
            lemma_slot_other::<CslgBox>(done, bb, BoxType::CSLG.code(), old(self).cslg);
            lemma_slot_other::<StssBox>(done, bb, BoxType::STSS.code(), old(self).stss);
            lemma_slot_other::<StshBox>(done, bb, BoxType::STSH.code(), old(self).stsh);
            lemma_slot_other::<SdtpBox>(done, bb, BoxType::SDTP.code(), old(self).sdtp);
            lemma_slot_other::<StszBox>(done, bb, BoxType::STSZ.code(), old(self).stsz);
            lemma_slot_other::<Stz2Box>(done, bb, BoxType::STZ2.code(), old(self).stz2);
            lemma_slot_other::<StcoBox>(done, bb, BoxType::STCO.code(), old(self).stco);
            lemma_slot_other::<Co64Box>(done, bb, BoxType::CO64.code(), old(self).co64);
            lemma_list_other::<SbgpBox>(done, bb, BoxType::SBGP.code(), old(self).sbgps@);
            lemma_list_other::<SgpdBox>(done, bb, BoxType::SGPD.code(), old(self).sgpds@);
            lemma_children_push(done, bb, BoxType::STSZ.code());
            lemma_children_push(done, bb, BoxType::STZ2.code());
            lemma_children_push(done, bb, BoxType::STCO.code());
            lemma_children_push(done, bb, BoxType::CO64.code());
        }
        self.stsc = Some(x);
    }

    /// A second `stsc` box after `done` makes the children no `stbl` box.
    proof fn lemma_dup_stsc(&self, done: Seq<Seq<u8>>, bb: Seq<u8>, after: Seq<Seq<u8>>)
        requires
            self.inv(done),
            self.stsc is Some,
            box_code(bb) == BoxType::STSC.code(),
        ensures
            !stbl_children_ok(done.push(bb) + after),
    {
        lemma_slot_unfold::<StscBox>(done, BoxType::STSC.code(), self.stsc);
        lemma_payloads_count(done, BoxType::STSC.code());
        lemma_children_push(done, bb, BoxType::STSC.code());
        lemma_count_grows(done.push(bb), after, BoxType::STSC.code());
    }

    /// Gathers the `stco` box `bb`, the first of its kind.
    fn put_stco(&mut self, x: StcoBox, Ghost(done): Ghost<Seq<Seq<u8>>>, Ghost(bb): Ghost<Seq<u8>>)
        requires
            old(self).inv(done),
            old(self).stco is None,
            old(self).co64 is None,
            box_code(bb) == BoxType::STCO.code(),
            StcoBox::spec_accepts(box_payload(bb)),
            StcoBox::spec_decodes(box_payload(bb), x),
        ensures
            final(self).inv(done.push(bb)),
    {
        proof {
            lemma_slot_unfold::<StcoBox>(done, BoxType::STCO.code(), old(self).stco);
            lemma_payloads_count(done, BoxType::STCO.code());
            lemma_slot_unfold::<Co64Box>(done, BoxType::CO64.code(), old(self).co64);
            lemma_payloads_count(done, BoxType::CO64.code());
            lemma_slot_fill::<StcoBox>(done, bb, BoxType::STCO.code(), x);
            lemma_slot_other::<StsdBox>(done, bb, BoxType::STSD.code(), old(self).stsd);
            lemma_slot_other::<StdpBox>(done, bb, BoxType::STDP.code(), old(self).stdp);
            lemma_slot_other::<SttsBox>(done, bb, BoxType::STTS.code(), old(self).stts);
            lemma_slot_other::<CttsBox>(done, bb, BoxType::CTTS.code(), old(self).ctts);
            lemma_slot_other::<CslgBox>(done, bb, BoxType::CSLG.code(), old(self).cslg);
            lemma_slot_other::<StssBox>(done, bb, BoxType::STSS.code(), old(self).stss);
            lemma_slot_other::<StshBox>(done, bb, BoxType::STSH.code(), old(self).stsh);
            lemma_slot_other::<SdtpBox>(done, bb, BoxType::SDTP.code(), old(self).sdtp);
            lemma_slot_other::<StszBox>(done, bb, BoxType::STSZ.code(), old(self).stsz);
            lemma_slot_other::<Stz2Box>(done, bb, BoxType::STZ2.code(), old(self).stz2);
            lemma_slot_other::<StscBox>(done, bb, BoxType::STSC.code(), old(self).stsc);
            lemma_slot_other::<Co64Box>(done, bb, BoxType::CO64.code(), old(self).co64);
            lemma_list_other::<SbgpBox>(done, bb, BoxType::SBGP.code(), old(self).sbgps@);
            lemma_list_other::<SgpdBox>(done, bb, BoxType::SGPD.code(), old(self).sgpds@);
            lemma_children_push(done, bb, BoxType::STSZ.code());
            lemma_children_push(done, bb, BoxType::STZ2.code());
            lemma_children_push(done, bb, BoxType::STCO.code());
            lemma_children_push(done, bb, BoxType::CO64.code());
        }
        self.stco = Some(x);
    }

    /// A second `stco` box after `done` makes the children no `stbl` box.
    proof fn lemma_dup_stco(&self, done: Seq<Seq<u8>>, bb: Seq<u8>, after: Seq<Seq<u8>>)
        requires
            self.inv(done),
            self.stco is Some || self.co64 is Some,
            box_code(bb) == BoxType::STCO.code(),
        ensures
            !stbl_children_ok(done.push(bb) + after),
    {
        lemma_slot_unfold::<StcoBox>(done, BoxType::STCO.code(), self.stco);
        lemma_payloads_count(done, BoxType::STCO.code());
        lemma_children_push(done, bb, BoxType::STCO.code());
        lemma_count_grows(done.push(bb), after, BoxType::STCO.code());
        lemma_slot_unfold::<Co64Box>(done, BoxType::CO64.code(), self.co64);
        lemma_payloads_count(done, BoxType::CO64.code());
        lemma_children_push(done, bb, BoxType::CO64.code());
        lemma_count_grows(done.push(bb), after, BoxType::CO64.code());
    }

    /// Gathers the `co64` box `bb`, the first of its kind.
    fn put_co64(&mut self, x: Co64Box, Ghost(done): Ghost<Seq<Seq<u8>>>, Ghost(bb): Ghost<Seq<u8>>)
        requires
            old(self).inv(done),
            old(self).co64 is None,
            old(self).stco is None,
            box_code(bb) == BoxType::CO64.code(),
            Co64Box::spec_accepts(box_payload(bb)),
            Co64Box::spec_decodes(box_payload(bb), x),
        ensures
            final(self).inv(done.push(bb)),
    {
        proof {
            lemma_slot_unfold::<Co64Box>(done, BoxType::CO64.code(), old(self).co64);
            lemma_payloads_count(done, BoxType::CO64.code());
            lemma_slot_unfold::<StcoBox>(done, BoxType::STCO.code(), old(self).stco);
            lemma_payloads_count(done, BoxType::STCO.code());
            lemma_slot_fill::<Co64Box>(done, bb, BoxType::CO64.code(), x);
            lemma_slot_other::<StsdBox>(done, bb, BoxType::STSD.code(), old(self).stsd);
            lemma_slot_other::<StdpBox>(done, bb, BoxType::STDP.code(), old(self).stdp);
            lemma_slot_other::<SttsBox>(done, bb, BoxType::STTS.code(), old(self).stts);
            lemma_slot_other::<CttsBox>(done, bb, BoxType::CTTS.code(), old(self).ctts);
            lemma_slot_other::<CslgBox>(done, bb, BoxType::CSLG.code(), old(self).cslg);
            lemma_slot_other::<StssBox>(done, bb, BoxType::STSS.code(), old(self).stss);
            lemma_slot_other::<StshBox>(done, bb, BoxType::STSH.code(), old(self).stsh);
            lemma_slot_other::<SdtpBox>(done, bb, BoxType::SDTP.code(), old(self).sdtp);
            lemma_slot_other::<StszBox>(done, bb, BoxType::STSZ.code(), old(self).stsz);
            lemma_slot_other::<Stz2Box>(done, bb, BoxType::STZ2.code(), old(self).stz2);
            lemma_slot_other::<StscBox>(done, bb, BoxType::STSC.code(), old(self).stsc);
            lemma_slot_other::<StcoBox>(done, bb, BoxType::STCO.code(), old(self).stco);
            lemma_list_other::<SbgpBox>(done, bb, BoxType::SBGP.code(), old(self).sbgps@);
            lemma_list_other::<SgpdBox>(done, bb, BoxType::SGPD.code(), old(self).sgpds@);
            lemma_children_push(done, bb, BoxType::STSZ.code());
            lemma_children_push(done, bb, BoxType::STZ2.code());
            lemma_children_push(done, bb, BoxType::STCO.code());
            lemma_children_push(done, bb, BoxType::CO64.code());
        }
        self.co64 = Some(x);
    }

    /// A second `co64` box after `done` makes the children no `stbl` box.
    proof fn lemma_dup_co64(&self, done: Seq<Seq<u8>>, bb: Seq<u8>, after: Seq<Seq<u8>>)
        requires
            self.inv(done),
            self.co64 is Some || self.stco is Some,
            box_code(bb) == BoxType::CO64.code(),
        ensures
            !stbl_children_ok(done.push(bb) + after),
    {
        lemma_slot_unfold::<Co64Box>(done, BoxType::CO64.code(), self.co64);
        lemma_payloads_count(done, BoxType::CO64.code());
        lemma_children_push(done, bb, BoxType::CO64.code());
        lemma_count_grows(done.push(bb), after, BoxType::CO64.code());
        lemma_slot_unfold::<StcoBox>(done, BoxType::STCO.code(), self.stco);
        lemma_payloads_count(done, BoxType::STCO.code());
        lemma_children_push(done, bb, BoxType::STCO.code());
        lemma_count_grows(done.push(bb), after, BoxType::STCO.code());
    }

    /// Gathers the `sbgp` box `bb`.
    fn push_sbgps(&mut self, x: SbgpBox, Ghost(done): Ghost<Seq<Seq<u8>>>, Ghost(bb): Ghost<Seq<u8>>)
        requires
            old(self).inv(done),
            box_code(bb) == BoxType::SBGP.code(),
            SbgpBox::spec_accepts(box_payload(bb)),
            SbgpBox::spec_decodes(box_payload(bb), x),
        ensures
            final(self).inv(done.push(bb)),
    {
        proof {
            lemma_list_push::<SbgpBox>(done, bb, BoxType::SBGP.code(), old(self).sbgps@, x);
            lemma_slot_other::<StsdBox>(done, bb, BoxType::STSD.code(), old(self).stsd);
            lemma_slot_other::<StdpBox>(done, bb, BoxType::STDP.code(), old(self).stdp);
            lemma_slot_other::<SttsBox>(done, bb, BoxType::STTS.code(), old(self).stts);
            lemma_slot_other::<CttsBox>(done, bb, BoxType::CTTS.code(), old(self).ctts);
            lemma_slot_other::<CslgBox>(done, bb, BoxType::CSLG.code(), old(self).cslg);
            lemma_slot_other::<StssBox>(done, bb, BoxType::STSS.code(), old(self).stss);
            lemma_slot_other::<StshBox>(done, bb, BoxType::STSH.code(), old(self).stsh);
            lemma_slot_other::<SdtpBox>(done, bb, BoxType::SDTP.code(), old(self).sdtp);
            lemma_slot_other::<StszBox>(done, bb, BoxType::STSZ.code(), old(self).stsz);
            lemma_slot_other::<Stz2Box>(done, bb, BoxType::STZ2.code(), old(self).stz2);
            lemma_slot_other::<StscBox>(done, bb, BoxType::STSC.code(), old(self).stsc);
            lemma_slot_other::<StcoBox>(done, bb, BoxType::STCO.code(), old(self).stco);
            lemma_slot_other::<Co64Box>(done, bb, BoxType::CO64.code(), old(self).co64);
            lemma_list_other::<SgpdBox>(done, bb, BoxType::SGPD.code(), old(self).sgpds@);
            lemma_children_push(done, bb, BoxType::STSZ.code());
            lemma_children_push(done, bb, BoxType::STZ2.code());
            lemma_children_push(done, bb, BoxType::STCO.code());
            lemma_children_push(done, bb, BoxType::CO64.code());
        }
        self.sbgps.push(x);
    }

    /// Gathers the `sgpd` box `bb`.
    fn push_sgpds(&mut self, x: SgpdBox, Ghost(done): Ghost<Seq<Seq<u8>>>, Ghost(bb): Ghost<Seq<u8>>)
        requires
            old(self).inv(done),
            box_code(bb) == BoxType::SGPD.code(),
            SgpdBox::spec_accepts(box_payload(bb)),
            SgpdBox::spec_decodes(box_payload(bb), x),
        ensures
            final(self).inv(done.push(bb)),
    {
        proof {
            lemma_list_push::<SgpdBox>(done, bb, BoxType::SGPD.code(), old(self).sgpds@, x);
            lemma_slot_other::<StsdBox>(done, bb, BoxType::STSD.code(), old(self).stsd);
            lemma_slot_other::<StdpBox>(done, bb, BoxType::STDP.code(), old(self).stdp);
            lemma_slot_other::<SttsBox>(done, bb, BoxType::STTS.code(), old(self).stts);
            lemma_slot_other::<CttsBox>(done, bb, BoxType::CTTS.code(), old(self).ctts);
            lemma_slot_other::<CslgBox>(done, bb, BoxType::CSLG.code(), old(self).cslg);
            lemma_slot_other::<StssBox>(done, bb, BoxType::STSS.code(), old(self).stss);
            lemma_slot_other::<StshBox>(done, bb, BoxType::STSH.code(), old(self).stsh);
            lemma_slot_other::<SdtpBox>(done, bb, BoxType::SDTP.code(), old(self).sdtp);
            lemma_slot_other::<StszBox>(done, bb, BoxType::STSZ.code(), old(self).stsz);
            lemma_slot_other::<Stz2Box>(done, bb, BoxType::STZ2.code(), old(self).stz2);
            lemma_slot_other::<StscBox>(done, bb, BoxType::STSC.code(), old(self).stsc);
            lemma_slot_other::<StcoBox>(done, bb, BoxType::STCO.code(), old(self).stco);
            lemma_slot_other::<Co64Box>(done, bb, BoxType::CO64.code(), old(self).co64);
            lemma_list_other::<SbgpBox>(done, bb, BoxType::SBGP.code(), old(self).sbgps@);
            lemma_children_push(done, bb, BoxType::STSZ.code());
            lemma_children_push(done, bb, BoxType::STZ2.code());
            lemma_children_push(done, bb, BoxType::STCO.code());
            lemma_children_push(done, bb, BoxType::CO64.code());
        }
        self.sgpds.push(x);
    }

    /// The owned box from the tables gathered from all child boxes `done`; an
    /// error when a required table is missing.
    fn finish(self, Ghost(done): Ghost<Seq<Seq<u8>>>) -> (r: Result<StblBox, Error>)
        requires
            self.inv(done),
        ensures
            (r is Ok) == stbl_children_ok(done),
            r matches Ok(v) ==> stbl_children_decode(done, v),
            stbl_first_dup(done) is None ==> stbl_error(done, r),
    {
        proof {
            lemma_slot_unfold::<StsdBox>(done, BoxType::STSD.code(), self.stsd);
            lemma_payloads_count(done, BoxType::STSD.code());
            lemma_slot_unfold::<StdpBox>(done, BoxType::STDP.code(), self.stdp);
            lemma_payloads_count(done, BoxType::STDP.code());
            lemma_slot_unfold::<SttsBox>(done, BoxType::STTS.code(), self.stts);
            lemma_payloads_count(done, BoxType::STTS.code());
            lemma_slot_unfold::<CttsBox>(done, BoxType::CTTS.code(), self.ctts);
            lemma_payloads_count(done, BoxType::CTTS.code());
            lemma_slot_unfold::<CslgBox>(done, BoxType::CSLG.code(), self.cslg);
            lemma_payloads_count(done, BoxType::CSLG.code());
            lemma_slot_unfold::<StssBox>(done, BoxType::STSS.code(), self.stss);
            lemma_payloads_count(done, BoxType::STSS.code());
            lemma_slot_unfold::<StshBox>(done, BoxType::STSH.code(), self.stsh);
            lemma_payloads_count(done, BoxType::STSH.code());
            lemma_slot_unfold::<SdtpBox>(done, BoxType::SDTP.code(), self.sdtp);
            lemma_payloads_count(done, BoxType::SDTP.code());
            lemma_slot_unfold::<StszBox>(done, BoxType::STSZ.code(), self.stsz);
            lemma_payloads_count(done, BoxType::STSZ.code());
            lemma_slot_unfold::<Stz2Box>(done, BoxType::STZ2.code(), self.stz2);
            lemma_payloads_count(done, BoxType::STZ2.code());
            lemma_slot_unfold::<StscBox>(done, BoxType::STSC.code(), self.stsc);
            lemma_payloads_count(done, BoxType::STSC.code());
            lemma_slot_unfold::<StcoBox>(done, BoxType::STCO.code(), self.stco);
            lemma_payloads_count(done, BoxType::STCO.code());
            lemma_slot_unfold::<Co64Box>(done, BoxType::CO64.code(), self.co64);
            lemma_payloads_count(done, BoxType::CO64.code());
            lemma_list_unfold::<SbgpBox>(done, BoxType::SBGP.code(), self.sbgps@);
            lemma_list_unfold::<SgpdBox>(done, BoxType::SGPD.code(), self.sgpds@);
        }
        let stsd = match self.stsd {
            Some(x) => x,
            None => {
                return Err(Error::in_box(ErrorKind::BoxMissing { required: BoxType::STSD }, BoxType::STBL));
            },
        };
        let stts = match self.stts {
            Some(x) => x,
            None => {
                return Err(Error::in_box(ErrorKind::BoxMissing { required: BoxType::STTS }, BoxType::STBL));
            },
        };
        let sample_size = match self.stsz {
            Some(x) => SampleSize::Stsz(x),
            None => match self.stz2 {
                Some(x) => SampleSize::Stz2(x),
                None => {
                    return Err(Error::in_box(ErrorKind::BoxMissing { required: BoxType::STSZ }, BoxType::STBL));
                },
            },
        };
        let stsc = match self.stsc {
            Some(x) => x,
            None => {
                return Err(Error::in_box(ErrorKind::BoxMissing { required: BoxType::STSC }, BoxType::STBL));
            },
        };
        let chunk_offset = match self.stco {
            Some(x) => ChunkOffset::Stco(x),
            None => match self.co64 {
                Some(x) => ChunkOffset::Co64(x),
                None => {
                    return Err(Error::in_box(ErrorKind::BoxMissing { required: BoxType::STCO }, BoxType::STBL));
                },
            },
        };
        let StblParts { stdp, ctts, cslg, stss, stsh, sdtp, sbgps, sgpds, .. } = self;
        Ok(StblBox { stsd, stts, sample_size, stsc, chunk_offset, stdp, ctts, cslg, stss, stsh, sdtp, sbgps, sgpds })
    }
}

/// A payload of type `c` that does not decode makes the children no `stbl` box.
proof fn reject_proof<'de, T: BoxDecode<'de>>(done: Seq<Seq<u8>>, bb: Seq<u8>, after: Seq<Seq<u8>>, c: u32)
    requires
        box_code(bb) == c,
        !T::spec_accepts(box_payload(bb)),
    ensures
        !all_accepted::<T>(payloads_of(done.push(bb) + after, c)),
{
    lemma_children_push(done, bb, c);
    let ps = payloads_of(done.push(bb), c);
    assert(ps[ps.len() - 1] == box_payload(bb));
    lemma_rejected_stays::<T>(done.push(bb), after, c);
}

impl StblBox {
    /// The owned box of a view: every child table decoded; an error for a
    /// malformed child box, a table that does not decode, a second copy of a
    /// table that occurs once, or a missing required table.
    pub fn try_from(view: &StblBoxView<'_>) -> (r: Result<StblBox, Error>)
        ensures
            (r is Ok) == stbl_accepts(view.content@),
            r matches Ok(v) ==> stbl_children_decode(spec_children(view.content@), v),
            spec_children_ok(view.content@) && stbl_known_accepted(spec_children(view.content@)) ==> stbl_error(
                spec_children(view.content@),
                r,
            ),
    {
        let mut parts = StblParts::new();
        let mut it = view.boxes();
        let ghost mut done: Seq<Seq<u8>> = Seq::empty();
        loop
            invariant_except_break
                it.data@ == view.content@,
                it.pos <= it.data@.len(),
                spec_children(view.content@) == done + spec_children(it.rest()),
                spec_children_ok(view.content@) == spec_children_ok(it.rest()),
                parts.inv(done),
                stbl_first_dup(done) is None,
            ensures
                spec_children_ok(view.content@),
                spec_children(view.content@) == done,
                parts.inv(done),
                stbl_first_dup(done) is None,
            decreases it.data@.len() - it.pos,
        {
            let ghost rest = it.rest();
            match it.next() {
                None => {
                    assert(done + Seq::<Seq<u8>>::empty() =~= done);
                    break;
                },
                Some(Err(e)) => {
                    return Err(e);
                },
                Some(Ok(b)) => {
                    let ghost bb = b.data@;
                    let t = b.boxtype();
                    let code = t.type_field().0;
                    proof {
                        lemma_children_step(rest);
                        lemma_box_len_bounds(rest);
                        assert(done.push(bb) + spec_children(it.rest()) =~= done + (seq![rest.take(spec_box_len(rest)->0)] + spec_children(rest.skip(spec_box_len(rest)->0))));
                        assert(box_payload(bb) =~= b.spec_payload());
                        assert(box_code(bb) == code);
                        parts.lemma_counts(done);
                        assert(done.push(bb).drop_last() =~= done);
                        assert(spec_children(view.content@) == done.push(bb) + spec_children(it.rest()));
                        if stbl_first_dup(done.push(bb)) is Some {
                            lemma_stbl_first_dup_prefix(done.push(bb), spec_children(it.rest()));
                        }
                    }
                    if code == BoxType::STSD.type_field().0 {
                        if parts.stsd.is_some() {
                            proof {
                                parts.lemma_dup_stsd(done, bb, spec_children(it.rest()));
                            }
                            return Err(Error::in_box(ErrorKind::BoxDuplicate { duplicate: BoxType::STSD }, BoxType::STBL));
                        }
                        let x = match StsdBox::decode(b.payload()) {
                            Ok(x) => x,
                            Err(e) => {
                                proof {
                                    reject_proof::<StsdBox>(done, bb, spec_children(it.rest()), BoxType::STSD.code());
                                }
                                return Err(e);
                            },
                        };
                        parts.put_stsd(x, Ghost(done), Ghost(bb));
                    } else if code == BoxType::STDP.type_field().0 {
                        if parts.stdp.is_some() {
                            proof {
                                parts.lemma_dup_stdp(done, bb, spec_children(it.rest()));
                            }
                            return Err(Error::in_box(ErrorKind::BoxDuplicate { duplicate: BoxType::STDP }, BoxType::STBL));
                        }
                        let x = match StdpBox::decode(b.payload()) {
                            Ok(x) => x,
                            Err(e) => {
                                proof {
                                    reject_proof::<StdpBox>(done, bb, spec_children(it.rest()), BoxType::STDP.code());
                                }
                                return Err(e);
                            },
                        };
                        parts.put_stdp(x, Ghost(done), Ghost(bb));
                    } else if code == BoxType::STTS.type_field().0 {
                        if parts.stts.is_some() {
                            proof {
                                parts.lemma_dup_stts(done, bb, spec_children(it.rest()));
                            }
                            return Err(Error::in_box(ErrorKind::BoxDuplicate { duplicate: BoxType::STTS }, BoxType::STBL));
                        }
                        let x = match SttsBox::decode(b.payload()) {
                            Ok(x) => x,
                            Err(e) => {
                                proof {
                                    reject_proof::<SttsBox>(done, bb, spec_children(it.rest()), BoxType::STTS.code());
                                }
                                return Err(e);
                            },
                        };
                        parts.put_stts(x, Ghost(done), Ghost(bb));
                    } else if code == BoxType::CTTS.type_field().0 {
                        if parts.ctts.is_some() {
                            proof {
                                parts.lemma_dup_ctts(done, bb, spec_children(it.rest()));
                            }
                            return Err(Error::in_box(ErrorKind::BoxDuplicate { duplicate: BoxType::CTTS }, BoxType::STBL));
                        }
                        let x = match CttsBox::decode(b.payload()) {
                            Ok(x) => x,
                            Err(e) => {
                                proof {
                                    reject_proof::<CttsBox>(done, bb, spec_children(it.rest()), BoxType::CTTS.code());
                                }
                                return Err(e);
                            },
                        };
                        parts.put_ctts(x, Ghost(done), Ghost(bb));
                    } else if code == BoxType::CSLG.type_field().0 {
                        if parts.cslg.is_some() {
                            proof {
                                parts.lemma_dup_cslg(done, bb, spec_children(it.rest()));
                            }
                            return Err(Error::in_box(ErrorKind::BoxDuplicate { duplicate: BoxType::CSLG }, BoxType::STBL));
                        }
                        let x = match CslgBox::decode(b.payload()) {
                            Ok(x) => x,
                            Err(e) => {
                                proof {
                                    reject_proof::<CslgBox>(done, bb, spec_children(it.rest()), BoxType::CSLG.code());
                                }
                                return Err(e);
                            },
                        };
                        parts.put_cslg(x, Ghost(done), Ghost(bb));
                    } else if code == BoxType::STSS.type_field().0 {
                        if parts.stss.is_some() {
                            proof {
                                parts.lemma_dup_stss(done, bb, spec_children(it.rest()));
                            }
                            return Err(Error::in_box(ErrorKind::BoxDuplicate { duplicate: BoxType::STSS }, BoxType::STBL));
                        }
                        let x = match StssBox::decode(b.payload()) {
                            Ok(x) => x,
                            Err(e) => {
                                proof {
                                    reject_proof::<StssBox>(done, bb, spec_children(it.rest()), BoxType::STSS.code());
                                }
                                return Err(e);
                            },
                        };
                        parts.put_stss(x, Ghost(done), Ghost(bb));
                    } else if code == BoxType::STSH.type_field().0 {
                        if parts.stsh.is_some() {
                            proof {
                                parts.lemma_dup_stsh(done, bb, spec_children(it.rest()));
                            }
                            return Err(Error::in_box(ErrorKind::BoxDuplicate { duplicate: BoxType::STSH }, BoxType::STBL));
                        }
                        let x = match StshBox::decode(b.payload()) {
                            Ok(x) => x,
                            Err(e) => {
                                proof {
                                    reject_proof::<StshBox>(done, bb, spec_children(it.rest()), BoxType::STSH.code());
                                }
                                return Err(e);
                            },
                        };
                        parts.put_stsh(x, Ghost(done), Ghost(bb));
                    } else if code == BoxType::SDTP.type_field().0 {
                        if parts.sdtp.is_some() {
                            proof {
                                parts.lemma_dup_sdtp(done, bb, spec_children(it.rest()));
                            }
                            return Err(Error::in_box(ErrorKind::BoxDuplicate { duplicate: BoxType::SDTP }, BoxType::STBL));
                        }
                        let x = match SdtpBox::decode(b.payload()) {
                            Ok(x) => x,
                            Err(e) => {
                                proof {
                                    reject_proof::<SdtpBox>(done, bb, spec_children(it.rest()), BoxType::SDTP.code());
                                }
                                return Err(e);
                            },
                        };
                        parts.put_sdtp(x, Ghost(done), Ghost(bb));
                    } else if code == BoxType::STSZ.type_field().0 {
                        if parts.stsz.is_some() || parts.stz2.is_some() {
                            proof {
                                parts.lemma_dup_stsz(done, bb, spec_children(it.rest()));
                            }
                            return Err(Error::in_box(ErrorKind::BoxDuplicate { duplicate: BoxType::STSZ }, BoxType::STBL));
                        }
                        let x = match StszBox::decode(b.payload()) {
                            Ok(x) => x,
                            Err(e) => {
                                proof {
                                    reject_proof::<StszBox>(done, bb, spec_children(it.rest()), BoxType::STSZ.code());
                                }
                                return Err(e);
                            },
                        };
                        parts.put_stsz(x, Ghost(done), Ghost(bb));
                    } else if code == BoxType::STZ2.type_field().0 {
                        if parts.stz2.is_some() || parts.stsz.is_some() {
                            proof {
                                parts.lemma_dup_stz2(done, bb, spec_children(it.rest()));
                            }
                            return Err(Error::in_box(ErrorKind::BoxDuplicate { duplicate: BoxType::STZ2 }, BoxType::STBL));
                        }
                        let x = match Stz2Box::decode(b.payload()) {
                            Ok(x) => x,
                            Err(e) => {
                                proof {
                                    reject_proof::<Stz2Box>(done, bb, spec_children(it.rest()), BoxType::STZ2.code());
                                }
                                return Err(e);
                            },
                        };
                        parts.put_stz2(x, Ghost(done), Ghost(bb));
                    } else if code == BoxType::STSC.type_field().0 {
                        if parts.stsc.is_some() {
                            proof {
                                parts.lemma_dup_stsc(done, bb, spec_children(it.rest()));
                            }
                            return Err(Error::in_box(ErrorKind::BoxDuplicate { duplicate: BoxType::STSC }, BoxType::STBL));
                        }
                        let x = match StscBox::decode(b.payload()) {
                            Ok(x) => x,
                            Err(e) => {
                                proof {
                                    reject_proof::<StscBox>(done, bb, spec_children(it.rest()), BoxType::STSC.code());
                                }
                                return Err(e);
                            },
                        };
                        parts.put_stsc(x, Ghost(done), Ghost(bb));
                    } else if code == BoxType::STCO.type_field().0 {
                        if parts.stco.is_some() || parts.co64.is_some() {
                            proof {
                                parts.lemma_dup_stco(done, bb, spec_children(it.rest()));
                            }
                            return Err(Error::in_box(ErrorKind::BoxDuplicate { duplicate: BoxType::STCO }, BoxType::STBL));
                        }
                        let x = match StcoBox::decode(b.payload()) {
                            Ok(x) => x,
                            Err(e) => {
                                proof {
                                    reject_proof::<StcoBox>(done, bb, spec_children(it.rest()), BoxType::STCO.code());
                                }
                                return Err(e);
                            },
                        };
                        parts.put_stco(x, Ghost(done), Ghost(bb));
                    } else if code == BoxType::CO64.type_field().0 {
                        if parts.co64.is_some() || parts.stco.is_some() {
                            proof {
                                parts.lemma_dup_co64(done, bb, spec_children(it.rest()));
                            }
                            return Err(Error::in_box(ErrorKind::BoxDuplicate { duplicate: BoxType::CO64 }, BoxType::STBL));
                        }
                        let x = match Co64Box::decode(b.payload()) {
                            Ok(x) => x,
                            Err(e) => {
                                proof {
                                    reject_proof::<Co64Box>(done, bb, spec_children(it.rest()), BoxType::CO64.code());
                                }
                                return Err(e);
                            },
                        };
                        parts.put_co64(x, Ghost(done), Ghost(bb));
                    } else if code == BoxType::SBGP.type_field().0 {
                        let x = match SbgpBox::decode(b.payload()) {
                            Ok(x) => x,
                            Err(e) => {
                                proof {
                                    reject_proof::<SbgpBox>(done, bb, spec_children(it.rest()), BoxType::SBGP.code());
                                }
                                return Err(e);
                            },
                        };
                        parts.push_sbgps(x, Ghost(done), Ghost(bb));
                    } else if code == BoxType::SGPD.type_field().0 {
                        let x = match SgpdBox::decode(b.payload()) {
                            Ok(x) => x,
                            Err(e) => {
                                proof {
                                    reject_proof::<SgpdBox>(done, bb, spec_children(it.rest()), BoxType::SGPD.code());
                                }
                                return Err(e);
                            },
                        };
                        parts.push_sgpds(x, Ghost(done), Ghost(bb));
                    } else {
                        proof {
                            parts.lemma_skip(done, bb);
                        }
                    }
                    proof {
                        done = done.push(bb);
                    }
                },
            }
        }
        parts.finish(Ghost(done))
    }
}

impl BoxCodec for StblBox {
    open spec fn spec_boxtype(&self) -> BoxType {
        BoxType::STBL
    }

    fn boxtype(&self) -> (r: BoxType) {
        BoxType::STBL
    }
}

impl<'de> BoxDecode<'de> for StblBox {
    open spec fn spec_accepts(bytes: Seq<u8>) -> bool {
        stbl_accepts(bytes)
    }

    open spec fn spec_decodes(bytes: Seq<u8>, v: Self) -> bool {
        stbl_children_decode(spec_children(bytes), v)
    }

    fn decode(bytes: &'de [u8]) -> (r: Result<Self, Error>) {
        let view = StblBoxView { content: bytes };
        StblBox::try_from(&view)
    }
}


impl StblBox {
    /// The bytes of the sample size box.
    pub open spec fn spec_sample_size_boxed(&self) -> Seq<u8> {
        match self.sample_size {
            SampleSize::Stsz(x) => spec_boxed(&x),
            SampleSize::Stz2(x) => spec_boxed(&x),
        }
    }

    /// Whether the sample size box can be encoded.
    pub open spec fn spec_sample_size_encodable(&self) -> bool {
        match self.sample_size {
            SampleSize::Stsz(x) => x.spec_encodable(),
            SampleSize::Stz2(x) => x.spec_encodable(),
        }
    }

    /// The bytes of the chunk offset box.
    pub open spec fn spec_chunk_offset_boxed(&self) -> Seq<u8> {
        match self.chunk_offset {
            ChunkOffset::Stco(x) => spec_boxed(&x),
            ChunkOffset::Co64(x) => spec_boxed(&x),
        }
    }

    /// Whether the chunk offset box can be encoded.
    pub open spec fn spec_chunk_offset_encodable(&self) -> bool {
        match self.chunk_offset {
            ChunkOffset::Stco(x) => x.spec_encodable(),
            ChunkOffset::Co64(x) => x.spec_encodable(),
        }
    }

    fn sample_size_len(&self) -> (r: usize)
        ensures
            self.spec_sample_size_encodable() && self.spec_sample_size_boxed().len() <= usize::MAX ==> r == self.spec_sample_size_boxed().len(),
    {
        match &self.sample_size {
            SampleSize::Stsz(x) => {
                proof {
                    lemma_boxed_len(x);
                }
                boxed_len(x)
            },
            SampleSize::Stz2(x) => {
                proof {
                    lemma_boxed_len(x);
                }
                boxed_len(x)
            },
        }
    }

    fn chunk_offset_len(&self) -> (r: usize)
        ensures
            self.spec_chunk_offset_encodable() && self.spec_chunk_offset_boxed().len() <= usize::MAX ==> r == self.spec_chunk_offset_boxed().len(),
    {
        match &self.chunk_offset {
            ChunkOffset::Stco(x) => {
                proof {
                    lemma_boxed_len(x);
                }
                boxed_len(x)
            },
            ChunkOffset::Co64(x) => {
                proof {
                    lemma_boxed_len(x);
                }
                boxed_len(x)
            },
        }
    }

    fn write_sample_size(&self, buf: &mut [u8], pos: usize) -> (r: Result<usize, Error>)
        requires
            pos <= old(buf)@.len(),
        ensures
            final(buf)@.len() == old(buf)@.len(),
            (r is Ok) == (self.spec_sample_size_encodable() && pos + self.spec_sample_size_boxed().len() <= old(buf)@.len()),
            r matches Ok(p) ==> p == pos + self.spec_sample_size_boxed().len() && final(buf)@ == splice(old(buf)@, pos as int, self.spec_sample_size_boxed()),
    {
        match &self.sample_size {
            SampleSize::Stsz(x) => write_box_at(buf, pos, x),
            SampleSize::Stz2(x) => write_box_at(buf, pos, x),
        }
    }

    fn write_chunk_offset(&self, buf: &mut [u8], pos: usize) -> (r: Result<usize, Error>)
        requires
            pos <= old(buf)@.len(),
        ensures
            final(buf)@.len() == old(buf)@.len(),
            (r is Ok) == (self.spec_chunk_offset_encodable() && pos + self.spec_chunk_offset_boxed().len() <= old(buf)@.len()),
            r matches Ok(p) ==> p == pos + self.spec_chunk_offset_boxed().len() && final(buf)@ == splice(old(buf)@, pos as int, self.spec_chunk_offset_boxed()),
    {
        match &self.chunk_offset {
            ChunkOffset::Stco(x) => write_box_at(buf, pos, x),
            ChunkOffset::Co64(x) => write_box_at(buf, pos, x),
        }
    }
}

impl BoxEncode for StblBox {
    open spec fn spec_encode(&self) -> Seq<u8> {
        spec_boxed(&self.stsd) + spec_opt_boxed(self.stdp) + spec_boxed(&self.stts) + spec_opt_boxed(self.ctts) + spec_opt_boxed(self.cslg) + spec_opt_boxed(self.stss) + spec_opt_boxed(self.stsh) + spec_opt_boxed(self.sdtp) + spec_boxed_list(self.sbgps@) + spec_boxed_list(self.sgpds@) + self.spec_sample_size_boxed() + spec_boxed(&self.stsc) + self.spec_chunk_offset_boxed()
    }

    open spec fn spec_encodable(&self) -> bool {
        &&& self.stsd.spec_encodable()
        &&& spec_opt_encodable(self.stdp)
        &&& self.stts.spec_encodable()
        &&& spec_opt_encodable(self.ctts)
        &&& spec_opt_encodable(self.cslg)
        &&& spec_opt_encodable(self.stss)
        &&& spec_opt_encodable(self.stsh)
        &&& spec_opt_encodable(self.sdtp)
        &&& spec_list_encodable(self.sbgps@)
        &&& spec_list_encodable(self.sgpds@)
        &&& self.spec_sample_size_encodable()
        &&& self.stsc.spec_encodable()
        &&& self.spec_chunk_offset_encodable()
        &&& self.spec_encode().len() <= usize::MAX
    }

    #[verifier::rlimit(40)]
    fn encoded_len(&self) -> (r: usize) {
        let mut len: usize = 0;
        let ghost ok = self.spec_encodable();
        let ghost l0 = spec_boxed(&self.stsd).len();
        let ghost l1 = spec_opt_boxed(self.stdp).len();
        let ghost l2 = spec_boxed(&self.stts).len();
        let ghost l3 = spec_opt_boxed(self.ctts).len();
        let ghost l4 = spec_opt_boxed(self.cslg).len();
        let ghost l5 = spec_opt_boxed(self.stss).len();
        let ghost l6 = spec_opt_boxed(self.stsh).len();
        let ghost l7 = spec_opt_boxed(self.sdtp).len();
        let ghost l8 = spec_boxed_list(self.sbgps@).len();
        let ghost l9 = spec_boxed_list(self.sgpds@).len();
        let ghost l10 = self.spec_sample_size_boxed().len();
        let ghost l11 = spec_boxed(&self.stsc).len();
        let ghost l12 = self.spec_chunk_offset_boxed().len();
        assert(self.spec_encode().len() == l0 + l1 + l2 + l3 + l4 + l5 + l6 + l7 + l8 + l9 + l10 + l11 + l12);
        let n = boxed_len(&self.stsd);
        proof {
            lemma_boxed_len(&self.stsd);
            assert(ok ==> n == l0);
        }
        if n > usize::MAX - len {
            return usize::MAX;
        }
        len = len + n;
        assert(ok ==> len == l0);
        let n = opt_boxed_len(&self.stdp);
        proof {
            assert(ok ==> n == l1);
        }
        if n > usize::MAX - len {
            return usize::MAX;
        }
        len = len + n;
        assert(ok ==> len == l0 + l1);
        let n = boxed_len(&self.stts);
        proof {
            lemma_boxed_len(&self.stts);
            assert(ok ==> n == l2);
        }
        if n > usize::MAX - len {
            return usize::MAX;
        }
        len = len + n;
        assert(ok ==> len == l0 + l1 + l2);
        let n = opt_boxed_len(&self.ctts);
        proof {
            assert(ok ==> n == l3);
        }
        if n > usize::MAX - len {
            return usize::MAX;
        }
        len = len + n;
        assert(ok ==> len == l0 + l1 + l2 + l3);
        let n = opt_boxed_len(&self.cslg);
        proof {
            assert(ok ==> n == l4);
        }
        if n > usize::MAX - len {
            return usize::MAX;
        }
        len = len + n;
        assert(ok ==> len == l0 + l1 + l2 + l3 + l4);
        let n = opt_boxed_len(&self.stss);
        proof {
            assert(ok ==> n == l5);
        }
        if n > usize::MAX - len {
            return usize::MAX;
        }
        len = len + n;
        assert(ok ==> len == l0 + l1 + l2 + l3 + l4 + l5);
        let n = opt_boxed_len(&self.stsh);
        proof {
            assert(ok ==> n == l6);
        }
        if n > usize::MAX - len {
            return usize::MAX;
        }
        len = len + n;
        assert(ok ==> len == l0 + l1 + l2 + l3 + l4 + l5 + l6);
        let n = opt_boxed_len(&self.sdtp);
        proof {
            assert(ok ==> n == l7);
        }
        if n > usize::MAX - len {
            return usize::MAX;
        }
        len = len + n;
        assert(ok ==> len == l0 + l1 + l2 + l3 + l4 + l5 + l6 + l7);
        let n = list_boxed_len(&self.sbgps);
        proof {
            assert(ok ==> n == l8);
        }
        if n > usize::MAX - len {
            return usize::MAX;
        }
        len = len + n;
        assert(ok ==> len == l0 + l1 + l2 + l3 + l4 + l5 + l6 + l7 + l8);
        let n = list_boxed_len(&self.sgpds);
        proof {
            assert(ok ==> n == l9);
        }
        if n > usize::MAX - len {
            return usize::MAX;
        }
        len = len + n;
        assert(ok ==> len == l0 + l1 + l2 + l3 + l4 + l5 + l6 + l7 + l8 + l9);
        let n = self.sample_size_len();
        proof {
            assert(ok ==> n == l10);
        }
        if n > usize::MAX - len {
            return usize::MAX;
        }
        len = len + n;
        assert(ok ==> len == l0 + l1 + l2 + l3 + l4 + l5 + l6 + l7 + l8 + l9 + l10);
        let n = boxed_len(&self.stsc);
        proof {
            lemma_boxed_len(&self.stsc);
            assert(ok ==> n == l11);
        }
        if n > usize::MAX - len {
            return usize::MAX;
        }
        len = len + n;
        assert(ok ==> len == l0 + l1 + l2 + l3 + l4 + l5 + l6 + l7 + l8 + l9 + l10 + l11);
        let n = self.chunk_offset_len();
        proof {
            assert(ok ==> n == l12);
        }
        if n > usize::MAX - len {
            return usize::MAX;
        }
        len = len + n;
        assert(ok ==> len == l0 + l1 + l2 + l3 + l4 + l5 + l6 + l7 + l8 + l9 + l10 + l11 + l12);
        len
    }

    #[verifier::rlimit(60)]
    fn encode_into(&self, bytes: &mut [u8]) -> (r: Result<usize, Error>) {
        let ghost s0 = bytes@;
        let p: usize = 0;
        proof {
            crate::cursor::lemma_splice_empty(s0, 0);
        }
        let ghost a = Seq::<u8>::empty();
        let w = write_box_at(bytes, p, &self.stsd);
        let p = match w {
            Ok(q) => q,
            Err(e) => {
                return Err(e);
            },
        };
        proof {
            lemma_splice_concat(s0, 0, a, spec_boxed(&self.stsd));
            assert(a + spec_boxed(&self.stsd) =~= Seq::<u8>::empty() + spec_boxed(&self.stsd));
        }
        let ghost a = Seq::<u8>::empty() + spec_boxed(&self.stsd);
        let w = write_opt_box_at(bytes, p, &self.stdp);
        let p = match w {
            Ok(q) => q,
            Err(e) => {
                return Err(e);
            },
        };
        proof {
            lemma_splice_concat(s0, 0, a, spec_opt_boxed(self.stdp));
            assert(a + spec_opt_boxed(self.stdp) =~= Seq::<u8>::empty() + spec_boxed(&self.stsd) + spec_opt_boxed(self.stdp));
        }
        let ghost a = Seq::<u8>::empty() + spec_boxed(&self.stsd) + spec_opt_boxed(self.stdp);
        let w = write_box_at(bytes, p, &self.stts);
        let p = match w {
            Ok(q) => q,
            Err(e) => {
                return Err(e);
            },
        };
        proof {
            lemma_splice_concat(s0, 0, a, spec_boxed(&self.stts));
            assert(a + spec_boxed(&self.stts) =~= Seq::<u8>::empty() + spec_boxed(&self.stsd) + spec_opt_boxed(self.stdp) + spec_boxed(&self.stts));
        }
        let ghost a = Seq::<u8>::empty() + spec_boxed(&self.stsd) + spec_opt_boxed(self.stdp) + spec_boxed(&self.stts);
        let w = write_opt_box_at(bytes, p, &self.ctts);
        let p = match w {
            Ok(q) => q,
            Err(e) => {
                return Err(e);
            },
        };
        proof {
            lemma_splice_concat(s0, 0, a, spec_opt_boxed(self.ctts));
            assert(a + spec_opt_boxed(self.ctts) =~= Seq::<u8>::empty() + spec_boxed(&self.stsd) + spec_opt_boxed(self.stdp) + spec_boxed(&self.stts) + spec_opt_boxed(self.ctts));
        }
        let ghost a = Seq::<u8>::empty() + spec_boxed(&self.stsd) + spec_opt_boxed(self.stdp) + spec_boxed(&self.stts) + spec_opt_boxed(self.ctts);
        let w = write_opt_box_at(bytes, p, &self.cslg);
        let p = match w {
            Ok(q) => q,
            Err(e) => {
                return Err(e);
            },
        };
        proof {
            lemma_splice_concat(s0, 0, a, spec_opt_boxed(self.cslg));
            assert(a + spec_opt_boxed(self.cslg) =~= Seq::<u8>::empty() + spec_boxed(&self.stsd) + spec_opt_boxed(self.stdp) + spec_boxed(&self.stts) + spec_opt_boxed(self.ctts) + spec_opt_boxed(self.cslg));
        }
        let ghost a = Seq::<u8>::empty() + spec_boxed(&self.stsd) + spec_opt_boxed(self.stdp) + spec_boxed(&self.stts) + spec_opt_boxed(self.ctts) + spec_opt_boxed(self.cslg);
        let w = write_opt_box_at(bytes, p, &self.stss);
        let p = match w {
            Ok(q) => q,
            Err(e) => {
                return Err(e);
            },
        };
        proof {
            lemma_splice_concat(s0, 0, a, spec_opt_boxed(self.stss));
            assert(a + spec_opt_boxed(self.stss) =~= Seq::<u8>::empty() + spec_boxed(&self.stsd) + spec_opt_boxed(self.stdp) + spec_boxed(&self.stts) + spec_opt_boxed(self.ctts) + spec_opt_boxed(self.cslg) + spec_opt_boxed(self.stss));
        }
        let ghost a = Seq::<u8>::empty() + spec_boxed(&self.stsd) + spec_opt_boxed(self.stdp) + spec_boxed(&self.stts) + spec_opt_boxed(self.ctts) + spec_opt_boxed(self.cslg) + spec_opt_boxed(self.stss);
        let w = write_opt_box_at(bytes, p, &self.stsh);
        let p = match w {
            Ok(q) => q,
            Err(e) => {
                return Err(e);
            },
        };
        proof {
            lemma_splice_concat(s0, 0, a, spec_opt_boxed(self.stsh));
            assert(a + spec_opt_boxed(self.stsh) =~= Seq::<u8>::empty() + spec_boxed(&self.stsd) + spec_opt_boxed(self.stdp) + spec_boxed(&self.stts) + spec_opt_boxed(self.ctts) + spec_opt_boxed(self.cslg) + spec_opt_boxed(self.stss) + spec_opt_boxed(self.stsh));
        }
        let ghost a = Seq::<u8>::empty() + spec_boxed(&self.stsd) + spec_opt_boxed(self.stdp) + spec_boxed(&self.stts) + spec_opt_boxed(self.ctts) + spec_opt_boxed(self.cslg) + spec_opt_boxed(self.stss) + spec_opt_boxed(self.stsh);
        let w = write_opt_box_at(bytes, p, &self.sdtp);
        let p = match w {
            Ok(q) => q,
            Err(e) => {
                return Err(e);
            },
        };
        proof {
            lemma_splice_concat(s0, 0, a, spec_opt_boxed(self.sdtp));
            assert(a + spec_opt_boxed(self.sdtp) =~= Seq::<u8>::empty() + spec_boxed(&self.stsd) + spec_opt_boxed(self.stdp) + spec_boxed(&self.stts) + spec_opt_boxed(self.ctts) + spec_opt_boxed(self.cslg) + spec_opt_boxed(self.stss) + spec_opt_boxed(self.stsh) + spec_opt_boxed(self.sdtp));
        }
        let ghost a = Seq::<u8>::empty() + spec_boxed(&self.stsd) + spec_opt_boxed(self.stdp) + spec_boxed(&self.stts) + spec_opt_boxed(self.ctts) + spec_opt_boxed(self.cslg) + spec_opt_boxed(self.stss) + spec_opt_boxed(self.stsh) + spec_opt_boxed(self.sdtp);
        let w = write_box_list_at(bytes, p, &self.sbgps);
        let p = match w {
            Ok(q) => q,
            Err(e) => {
                return Err(e);
            },
        };
        proof {
            lemma_splice_concat(s0, 0, a, spec_boxed_list(self.sbgps@));
            assert(a + spec_boxed_list(self.sbgps@) =~= Seq::<u8>::empty() + spec_boxed(&self.stsd) + spec_opt_boxed(self.stdp) + spec_boxed(&self.stts) + spec_opt_boxed(self.ctts) + spec_opt_boxed(self.cslg) + spec_opt_boxed(self.stss) + spec_opt_boxed(self.stsh) + spec_opt_boxed(self.sdtp) + spec_boxed_list(self.sbgps@));
        }
        let ghost a = Seq::<u8>::empty() + spec_boxed(&self.stsd) + spec_opt_boxed(self.stdp) + spec_boxed(&self.stts) + spec_opt_boxed(self.ctts) + spec_opt_boxed(self.cslg) + spec_opt_boxed(self.stss) + spec_opt_boxed(self.stsh) + spec_opt_boxed(self.sdtp) + spec_boxed_list(self.sbgps@);
        let w = write_box_list_at(bytes, p, &self.sgpds);
        let p = match w {
            Ok(q) => q,
            Err(e) => {
                return Err(e);
            },
        };
        proof {
            lemma_splice_concat(s0, 0, a, spec_boxed_list(self.sgpds@));
            assert(a + spec_boxed_list(self.sgpds@) =~= Seq::<u8>::empty() + spec_boxed(&self.stsd) + spec_opt_boxed(self.stdp) + spec_boxed(&self.stts) + spec_opt_boxed(self.ctts) + spec_opt_boxed(self.cslg) + spec_opt_boxed(self.stss) + spec_opt_boxed(self.stsh) + spec_opt_boxed(self.sdtp) + spec_boxed_list(self.sbgps@) + spec_boxed_list(self.sgpds@));
        }
        let ghost a = Seq::<u8>::empty() + spec_boxed(&self.stsd) + spec_opt_boxed(self.stdp) + spec_boxed(&self.stts) + spec_opt_boxed(self.ctts) + spec_opt_boxed(self.cslg) + spec_opt_boxed(self.stss) + spec_opt_boxed(self.stsh) + spec_opt_boxed(self.sdtp) + spec_boxed_list(self.sbgps@) + spec_boxed_list(self.sgpds@);
        let w = self.write_sample_size(bytes, p);
        let p = match w {
            Ok(q) => q,
            Err(e) => {
                return Err(e);
            },
        };
        proof {
            lemma_splice_concat(s0, 0, a, self.spec_sample_size_boxed());
            assert(a + self.spec_sample_size_boxed() =~= Seq::<u8>::empty() + spec_boxed(&self.stsd) + spec_opt_boxed(self.stdp) + spec_boxed(&self.stts) + spec_opt_boxed(self.ctts) + spec_opt_boxed(self.cslg) + spec_opt_boxed(self.stss) + spec_opt_boxed(self.stsh) + spec_opt_boxed(self.sdtp) + spec_boxed_list(self.sbgps@) + spec_boxed_list(self.sgpds@) + self.spec_sample_size_boxed());
        }
        let ghost a = Seq::<u8>::empty() + spec_boxed(&self.stsd) + spec_opt_boxed(self.stdp) + spec_boxed(&self.stts) + spec_opt_boxed(self.ctts) + spec_opt_boxed(self.cslg) + spec_opt_boxed(self.stss) + spec_opt_boxed(self.stsh) + spec_opt_boxed(self.sdtp) + spec_boxed_list(self.sbgps@) + spec_boxed_list(self.sgpds@) + self.spec_sample_size_boxed();
        let w = write_box_at(bytes, p, &self.stsc);
        let p = match w {
            Ok(q) => q,
            Err(e) => {
                return Err(e);
            },
        };
        proof {
            lemma_splice_concat(s0, 0, a, spec_boxed(&self.stsc));
            assert(a + spec_boxed(&self.stsc) =~= Seq::<u8>::empty() + spec_boxed(&self.stsd) + spec_opt_boxed(self.stdp) + spec_boxed(&self.stts) + spec_opt_boxed(self.ctts) + spec_opt_boxed(self.cslg) + spec_opt_boxed(self.stss) + spec_opt_boxed(self.stsh) + spec_opt_boxed(self.sdtp) + spec_boxed_list(self.sbgps@) + spec_boxed_list(self.sgpds@) + self.spec_sample_size_boxed() + spec_boxed(&self.stsc));
        }
        let ghost a = Seq::<u8>::empty() + spec_boxed(&self.stsd) + spec_opt_boxed(self.stdp) + spec_boxed(&self.stts) + spec_opt_boxed(self.ctts) + spec_opt_boxed(self.cslg) + spec_opt_boxed(self.stss) + spec_opt_boxed(self.stsh) + spec_opt_boxed(self.sdtp) + spec_boxed_list(self.sbgps@) + spec_boxed_list(self.sgpds@) + self.spec_sample_size_boxed() + spec_boxed(&self.stsc);
        let w = self.write_chunk_offset(bytes, p);
        let p = match w {
            Ok(q) => q,
            Err(e) => {
                return Err(e);
            },
        };
        proof {
            lemma_splice_concat(s0, 0, a, self.spec_chunk_offset_boxed());
            assert(a + self.spec_chunk_offset_boxed() =~= Seq::<u8>::empty() + spec_boxed(&self.stsd) + spec_opt_boxed(self.stdp) + spec_boxed(&self.stts) + spec_opt_boxed(self.ctts) + spec_opt_boxed(self.cslg) + spec_opt_boxed(self.stss) + spec_opt_boxed(self.stsh) + spec_opt_boxed(self.sdtp) + spec_boxed_list(self.sbgps@) + spec_boxed_list(self.sgpds@) + self.spec_sample_size_boxed() + spec_boxed(&self.stsc) + self.spec_chunk_offset_boxed());
        }
        Ok(p)
    }
}

} // verus!
