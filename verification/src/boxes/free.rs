//! Free Space Box (`free`): bytes that carry no information.
use vstd::prelude::*;

use crate::codec::{BoxCodec, BoxDecode, BoxEncode};
use crate::cursor::put_slice;
use crate::error::Error;
use crate::types::BoxType;

verus! {

/// Free Space Box (`free`) over a byte slice.
#[derive(Debug)]
pub struct FreeBoxView<'a> {
    /// The contents of the box.
    pub data: &'a [u8],
}

impl<'a> FreeBoxView<'a> {
    /// An owned copy of this box.
    pub fn to_owned(&self) -> (r: FreeBox)
        ensures
            r.data@ == self.data@,
    {
        FreeBox::from(self)
    }
}

impl BoxCodec for FreeBoxView<'_> {
    open spec fn spec_boxtype(&self) -> BoxType {
        BoxType::FREE
    }

    fn boxtype(&self) -> (r: BoxType) {
        BoxType::FREE
    }
}

impl<'de> BoxDecode<'de> for FreeBoxView<'de> {
    open spec fn spec_accepts(bytes: Seq<u8>) -> bool {
        true
    }

    open spec fn spec_decodes(bytes: Seq<u8>, v: Self) -> bool {
        v.data@ == bytes
    }

    fn decode(bytes: &'de [u8]) -> (r: Result<Self, Error>) {
        Ok(FreeBoxView { data: bytes })
    }
}

/// Free Space Box (`free`) with its contents in a vector.
#[derive(Debug, Clone)]
pub struct FreeBox {
    /// The contents of the box.
    pub data: Vec<u8>,
}

impl FreeBox {
    /// The owned box holding a copy of the view's bytes.
    pub fn from(view: &FreeBoxView<'_>) -> (r: FreeBox)
        ensures
            r.data@ == view.data@,
    {
        FreeBox { data: vstd::slice::slice_to_vec(view.data) }
    }
}

impl BoxCodec for FreeBox {
    open spec fn spec_boxtype(&self) -> BoxType {
        BoxType::FREE
    }

    fn boxtype(&self) -> (r: BoxType) {
        BoxType::FREE
    }
}

impl<'de> BoxDecode<'de> for FreeBox {
    open spec fn spec_accepts(bytes: Seq<u8>) -> bool {
        true
    }

    open spec fn spec_decodes(bytes: Seq<u8>, v: Self) -> bool {
        v.data@ == bytes
    }

    fn decode(bytes: &'de [u8]) -> (r: Result<Self, Error>) {
        let view = FreeBoxView::decode(bytes)?;
        Ok(FreeBox::from(&view))
    }
}

impl BoxEncode for FreeBox {
    open spec fn spec_encode(&self) -> Seq<u8> {
        self.data@
    }

    open spec fn spec_encodable(&self) -> bool {
        true
    }

    fn encoded_len(&self) -> (r: usize) {
        self.data.len()
    }

    fn encode_into(&self, bytes: &mut [u8]) -> (r: Result<usize, Error>) {
        put_slice(bytes, 0, self.data.as_slice())
    }
}

/// Decoding the encoding of a `free` box gives the box back.
pub proof fn lemma_free_roundtrip(b: FreeBox)
    ensures
        FreeBox::spec_accepts(b.spec_encode()),
        FreeBox::spec_decodes(b.spec_encode(), b),
{
}

/// Encoding the box decoded from a payload gives the payload back.
pub proof fn lemma_free_reencode(s: Seq<u8>, b: FreeBox)
    requires
        FreeBox::spec_decodes(s, b),
    ensures
        b.spec_encode() == s,
{
}

/// The layout of a `free` payload: what a view of `free` box decoded from
/// `bytes` holds, field by field, read at fixed offsets.
pub proof fn lemma_free_box_view_layout<'a>(bytes: Seq<u8>, v: FreeBoxView<'a>)
    requires
        FreeBoxView::spec_decodes(bytes, v),
    ensures
        v.data@ == bytes,
{
}

/// The layout of a `free` payload: what an owned `free` box decoded from
/// `bytes` holds, field by field, read at fixed offsets.
pub proof fn lemma_free_box_layout(bytes: Seq<u8>, v: FreeBox)
    requires
        FreeBox::spec_decodes(bytes, v),
    ensures
        v.data@ == bytes,
{
}

} // verus!
