//! Pixel Aspect Ratio Box (`pasp`): the spacing of pixels.
use vstd::prelude::*;

use crate::bytes::{be32, u32_bytes, lemma_u32_bytes_of, lemma_subrange_split, lemma_be32_in};
use crate::codec::{BoxCodec, BoxDecode, BoxEncode, short_buffer};
use crate::cursor::{put_u32, lemma_splice_concat, ReadCursor};
use crate::error::Error;
use crate::types::BoxType;

verus! {

/// Pixel Aspect Ratio Box (`pasp`): horizontal and vertical pixel spacing.
#[derive(Debug, Clone, Copy)]
pub struct PaspBox {
    /// Horizontal spacing of pixels.
    pub h_spacing: u32,
    /// Vertical spacing of pixels.
    pub v_spacing: u32,
}

impl Default for PaspBox {
    /// Square pixels.
    fn default() -> (r: PaspBox)
        ensures
            r.h_spacing == 1,
            r.v_spacing == 1,
    {
        PaspBox { h_spacing: 1, v_spacing: 1 }
    }
}

impl BoxCodec for PaspBox {
    open spec fn spec_boxtype(&self) -> BoxType {
        BoxType::PASP
    }

    fn boxtype(&self) -> (r: BoxType) {
        BoxType::PASP
    }
}

impl<'de> BoxDecode<'de> for PaspBox {
    open spec fn spec_accepts(bytes: Seq<u8>) -> bool {
        bytes.len() >= 8
    }

    open spec fn spec_decodes(bytes: Seq<u8>, v: Self) -> bool {
        &&& v.h_spacing == be32(bytes, 0)
        &&& v.v_spacing == be32(bytes, 4)
    }

    fn decode(bytes: &'de [u8]) -> (r: Result<Self, Error>) {
        let mut cur = ReadCursor::new(bytes);
        let h_spacing_0 = cur.read_u32_be()?;
        let v_spacing_0 = cur.read_u32_be()?;
        Ok(PaspBox { h_spacing: h_spacing_0, v_spacing: v_spacing_0 })
    }
}

impl BoxEncode for PaspBox {
    open spec fn spec_encode(&self) -> Seq<u8> {
        u32_bytes(self.h_spacing) + u32_bytes(self.v_spacing)
    }

    open spec fn spec_encodable(&self) -> bool {
        true
    }

    fn encoded_len(&self) -> (r: usize) {
        8
    }

    fn encode_into(&self, bytes: &mut [u8]) -> (r: Result<usize, Error>) {
        let ghost s0 = bytes@;
        if bytes.len() < 8 {
            return Err(short_buffer(8, bytes.len()));
        }
        let p = put_u32(bytes, 0, self.h_spacing)?;
        let ghost mut acc = u32_bytes(self.h_spacing);
        let p = put_u32(bytes, p, self.v_spacing)?;
        proof {
                lemma_splice_concat(s0, 0, acc, u32_bytes(self.v_spacing));
                acc = acc + u32_bytes(self.v_spacing);
            }
        Ok(p)
    }
}

/// Decoding the encoding of a `pasp` box gives the box back.
pub proof fn lemma_pasp_roundtrip(b: PaspBox)
    requires
    ensures
        PaspBox::spec_accepts(b.spec_encode()),
        PaspBox::spec_decodes(b.spec_encode(), b),
{
    assert(b.h_spacing == be32(b.spec_encode(), 0)) by {
            assert(b.spec_encode().subrange(0, 4) =~= u32_bytes(b.h_spacing));
            lemma_be32_in(b.spec_encode(), 0, b.h_spacing);
        }
    assert(b.v_spacing == be32(b.spec_encode(), 4)) by {
            assert(b.spec_encode().subrange(4, 8) =~= u32_bytes(b.v_spacing));
            lemma_be32_in(b.spec_encode(), 4, b.v_spacing);
        }
}

/// Encoding the box decoded from a payload of exactly 8 bytes, whose
/// reserved bytes are zero, gives the payload back.
pub proof fn lemma_pasp_reencode(s: Seq<u8>, b: PaspBox)
    requires
        s.len() == 8,
        PaspBox::spec_decodes(s, b),
    ensures
        b.spec_encode() == s,
{
    lemma_u32_bytes_of(s, 0);
    lemma_u32_bytes_of(s, 4);
    lemma_subrange_split(s, 0, 4, 8);
    assert(s.subrange(0, 8) =~= s);
}

/// The layout of a `pasp` payload: what an owned `pasp` box decoded from
/// `bytes` holds, field by field, read at fixed offsets.
pub proof fn lemma_pasp_box_layout(bytes: Seq<u8>, v: PaspBox)
    requires
        PaspBox::spec_decodes(bytes, v),
    ensures
        v.h_spacing == be32(bytes, 0),
        v.v_spacing == be32(bytes, 4),
{
}

} // verus!
