//! Track Box (`trak`): the container of one track's boxes.
use vstd::prelude::*;

use crate::children::{decode_child, decode_required, optional_child, required_child};
use crate::codec::{BoxCodec, BoxDecode, BoxEncode};
use crate::error::Error;
use crate::rawbox::{BoxIter, RawBoxOwned, spec_children, spec_children_ok};
use crate::types::BoxType;
use crate::boxes::edts::EdtsBoxView;
use crate::boxes::stsd::{raw_boxes_bytes, raw_boxes_concat, raw_boxes_wf, copy_children, raw_boxes_len, write_raw_boxes, raw_box_framed, lemma_raw_boxes_children};
use crate::boxes::tkhd::TkhdBox;
use crate::boxes::trgr::TrgrBoxView;

verus! {

/// Track Box (`trak`) over the bytes of its child boxes.
#[derive(Debug)]
pub struct TrakBoxView<'a> {
    /// The child boxes.
    pub content: &'a [u8],
}

impl<'a> TrakBoxView<'a> {
    /// An iterator over the child boxes.
    pub fn boxes(&self) -> (r: BoxIter<'a>)
        ensures
            r.data@ == self.content@,
            r.pos == 0,
            r.rest() == self.content@,
    {
        BoxIter::new(self.content)
    }

    /// The Track Header Box (`tkhd`), which is required.
    pub fn tkhd(&self) -> (r: Result<TkhdBox, Error>)
        ensures
            required_child(self.content@, BoxType::TKHD, r),
    {
        decode_required(self.content, BoxType::TKHD, BoxType::TRAK)
    }

    /// The Edit Box (`edts`), if any.
    pub fn edts(&self) -> (r: Result<Option<EdtsBoxView<'a>>, Error>)
        ensures
            optional_child(self.content@, BoxType::EDTS, r),
    {
        decode_child(self.content, BoxType::EDTS)
    }

    /// The Track Group Box (`trgr`), if any.
    pub fn trgr(&self) -> (r: Result<Option<TrgrBoxView<'a>>, Error>)
        ensures
            optional_child(self.content@, BoxType::TRGR, r),
    {
        decode_child(self.content, BoxType::TRGR)
    }
}

impl BoxCodec for TrakBoxView<'_> {
    open spec fn spec_boxtype(&self) -> BoxType {
        BoxType::TRAK
    }

    fn boxtype(&self) -> (r: BoxType) {
        BoxType::TRAK
    }
}

impl<'de> BoxDecode<'de> for TrakBoxView<'de> {
    open spec fn spec_accepts(bytes: Seq<u8>) -> bool {
        true
    }

    open spec fn spec_decodes(bytes: Seq<u8>, v: Self) -> bool {
        v.content@ == bytes
    }

    fn decode(bytes: &'de [u8]) -> (r: Result<Self, Error>) {
        Ok(TrakBoxView { content: bytes })
    }
}

/// Track Box (`trak`) with its child boxes copied.
#[derive(Debug, Clone)]
pub struct TrakBox {
    /// The child boxes, in order.
    pub boxes: Vec<RawBoxOwned>,
}

impl BoxCodec for TrakBox {
    open spec fn spec_boxtype(&self) -> BoxType {
        BoxType::TRAK
    }

    fn boxtype(&self) -> (r: BoxType) {
        BoxType::TRAK
    }
}

impl<'de> BoxDecode<'de> for TrakBox {
    open spec fn spec_accepts(bytes: Seq<u8>) -> bool {
        spec_children_ok(bytes)
    }

    open spec fn spec_decodes(bytes: Seq<u8>, v: Self) -> bool {
        raw_boxes_bytes(v.boxes@) == spec_children(bytes) && raw_boxes_wf(v.boxes@)
    }

    fn decode(bytes: &'de [u8]) -> (r: Result<Self, Error>) {
        let boxes = copy_children(bytes)?;
        Ok(TrakBox { boxes })
    }
}

impl BoxEncode for TrakBox {
    open spec fn spec_encode(&self) -> Seq<u8> {
        raw_boxes_concat(self.boxes@)
    }

    open spec fn spec_encodable(&self) -> bool {
        self.spec_encode().len() <= usize::MAX
    }

    fn encoded_len(&self) -> (r: usize) {
        raw_boxes_len(&self.boxes)
    }

    fn encode_into(&self, bytes: &mut [u8]) -> (r: Result<usize, Error>) {
        write_raw_boxes(bytes, 0, &self.boxes)
    }
}

/// Decoding the encoding of an owned `trak` box gives the box back, when the
/// header of each child declares the child's length and its type can be
/// written.
pub proof fn lemma_trak_roundtrip(t: TrakBox)
    requires
        raw_boxes_wf(t.boxes@),
        forall|i: int| 0 <= i < t.boxes@.len() ==> raw_box_framed(#[trigger] t.boxes@[i]),
    ensures
        TrakBox::spec_accepts(t.spec_encode()),
        TrakBox::spec_decodes(t.spec_encode(), t),
{
    let cat = raw_boxes_concat(t.boxes@);
    lemma_raw_boxes_children(t.boxes@, Seq::empty());
    assert(cat + Seq::<u8>::empty() =~= cat);
    assert(spec_children(Seq::<u8>::empty()) =~= Seq::<Seq<u8>>::empty());
    assert(raw_boxes_bytes(t.boxes@) + Seq::<Seq<u8>>::empty() =~= raw_boxes_bytes(t.boxes@));
}

} // verus!
