//! Clean Aperture Box (`clap`): the region of a video frame holding valid image data.
use vstd::prelude::*;

use crate::bytes::{be32, u32_bytes, lemma_u32_bytes_of, lemma_subrange_split, lemma_be32_in};
use crate::codec::{BoxCodec, BoxDecode, BoxEncode, short_buffer};
use crate::cursor::{put_u32, lemma_splice_concat, ReadCursor};
use crate::error::Error;
use crate::types::{BoxType, FractionU32};

verus! {

/// Clean Aperture Box (`clap`): the clean aperture of a video sample, as four fractions.
#[derive(Debug, Clone, Copy)]
pub struct ClapBox {
    /// Clean aperture width, in counted pixels.
    pub clean_aperture_width: FractionU32,
    /// Clean aperture height, in counted pixels.
    pub clean_aperture_height: FractionU32,
    /// Horizontal offset of the clean aperture centre minus `(width-1)/2`.
    pub horiz_offset: FractionU32,
    /// Vertical offset of the clean aperture centre minus `(height-1)/2`.
    pub vert_offset: FractionU32,
}

impl BoxCodec for ClapBox {
    open spec fn spec_boxtype(&self) -> BoxType {
        BoxType::CLAP
    }

    fn boxtype(&self) -> (r: BoxType) {
        BoxType::CLAP
    }
}

impl<'de> BoxDecode<'de> for ClapBox {
    open spec fn spec_accepts(bytes: Seq<u8>) -> bool {
        bytes.len() >= 32
    }

    open spec fn spec_decodes(bytes: Seq<u8>, v: Self) -> bool {
        &&& v.clean_aperture_width.numerator == be32(bytes, 0)
        &&& v.clean_aperture_width.denominator == be32(bytes, 4)
        &&& v.clean_aperture_height.numerator == be32(bytes, 8)
        &&& v.clean_aperture_height.denominator == be32(bytes, 12)
        &&& v.horiz_offset.numerator == be32(bytes, 16)
        &&& v.horiz_offset.denominator == be32(bytes, 20)
        &&& v.vert_offset.numerator == be32(bytes, 24)
        &&& v.vert_offset.denominator == be32(bytes, 28)
    }

    fn decode(bytes: &'de [u8]) -> (r: Result<Self, Error>) {
        let mut cur = ReadCursor::new(bytes);
        let clean_aperture_width_0 = cur.read_u32_be()?;
        let clean_aperture_width_1 = cur.read_u32_be()?;
        let clean_aperture_height_0 = cur.read_u32_be()?;
        let clean_aperture_height_1 = cur.read_u32_be()?;
        let horiz_offset_0 = cur.read_u32_be()?;
        let horiz_offset_1 = cur.read_u32_be()?;
        let vert_offset_0 = cur.read_u32_be()?;
        let vert_offset_1 = cur.read_u32_be()?;
        Ok(ClapBox { clean_aperture_width: FractionU32 { numerator: clean_aperture_width_0, denominator: clean_aperture_width_1 }, clean_aperture_height: FractionU32 { numerator: clean_aperture_height_0, denominator: clean_aperture_height_1 }, horiz_offset: FractionU32 { numerator: horiz_offset_0, denominator: horiz_offset_1 }, vert_offset: FractionU32 { numerator: vert_offset_0, denominator: vert_offset_1 } })
    }
}

impl BoxEncode for ClapBox {
    open spec fn spec_encode(&self) -> Seq<u8> {
        u32_bytes(self.clean_aperture_width.numerator) + u32_bytes(self.clean_aperture_width.denominator) + u32_bytes(self.clean_aperture_height.numerator) + u32_bytes(self.clean_aperture_height.denominator) + u32_bytes(self.horiz_offset.numerator) + u32_bytes(self.horiz_offset.denominator) + u32_bytes(self.vert_offset.numerator) + u32_bytes(self.vert_offset.denominator)
    }

    open spec fn spec_encodable(&self) -> bool {
        true
    }

    fn encoded_len(&self) -> (r: usize) {
        32
    }

    fn encode_into(&self, bytes: &mut [u8]) -> (r: Result<usize, Error>) {
        let ghost s0 = bytes@;
        if bytes.len() < 32 {
            return Err(short_buffer(32, bytes.len()));
        }
        let p = put_u32(bytes, 0, self.clean_aperture_width.numerator)?;
        let ghost mut acc = u32_bytes(self.clean_aperture_width.numerator);
        let p = put_u32(bytes, p, self.clean_aperture_width.denominator)?;
        proof {
                lemma_splice_concat(s0, 0, acc, u32_bytes(self.clean_aperture_width.denominator));
                acc = acc + u32_bytes(self.clean_aperture_width.denominator);
            }
        let p = put_u32(bytes, p, self.clean_aperture_height.numerator)?;
        proof {
                lemma_splice_concat(s0, 0, acc, u32_bytes(self.clean_aperture_height.numerator));
                acc = acc + u32_bytes(self.clean_aperture_height.numerator);
            }
        let p = put_u32(bytes, p, self.clean_aperture_height.denominator)?;
        proof {
                lemma_splice_concat(s0, 0, acc, u32_bytes(self.clean_aperture_height.denominator));
                acc = acc + u32_bytes(self.clean_aperture_height.denominator);
            }
        let p = put_u32(bytes, p, self.horiz_offset.numerator)?;
        proof {
                lemma_splice_concat(s0, 0, acc, u32_bytes(self.horiz_offset.numerator));
                acc = acc + u32_bytes(self.horiz_offset.numerator);
            }
        let p = put_u32(bytes, p, self.horiz_offset.denominator)?;
        proof {
                lemma_splice_concat(s0, 0, acc, u32_bytes(self.horiz_offset.denominator));
                acc = acc + u32_bytes(self.horiz_offset.denominator);
            }
        let p = put_u32(bytes, p, self.vert_offset.numerator)?;
        proof {
                lemma_splice_concat(s0, 0, acc, u32_bytes(self.vert_offset.numerator));
                acc = acc + u32_bytes(self.vert_offset.numerator);
            }
        let p = put_u32(bytes, p, self.vert_offset.denominator)?;
        proof {
                lemma_splice_concat(s0, 0, acc, u32_bytes(self.vert_offset.denominator));
                acc = acc + u32_bytes(self.vert_offset.denominator);
            }
        Ok(p)
    }
}

impl Default for ClapBox {
    fn default() -> (r: ClapBox)
        ensures
            r.clean_aperture_width.numerator == 1,
            r.clean_aperture_width.denominator == 1,
            r.clean_aperture_height.numerator == 1,
            r.clean_aperture_height.denominator == 1,
            r.horiz_offset.numerator == 0,
            r.horiz_offset.denominator == 1,
            r.vert_offset.numerator == 0,
            r.vert_offset.denominator == 1,
    {
        ClapBox { clean_aperture_width: FractionU32::new(1, 1), clean_aperture_height: FractionU32::new(1, 1), horiz_offset: FractionU32::new(0, 1), vert_offset: FractionU32::new(0, 1) }
    }
}

/// Decoding the encoding of a `clap` box gives the box back.
pub proof fn lemma_clap_roundtrip(b: ClapBox)
    requires
    ensures
        ClapBox::spec_accepts(b.spec_encode()),
        ClapBox::spec_decodes(b.spec_encode(), b),
{
    assert(b.clean_aperture_width.numerator == be32(b.spec_encode(), 0)) by {
            assert(b.spec_encode().subrange(0, 4) =~= u32_bytes(b.clean_aperture_width.numerator));
            lemma_be32_in(b.spec_encode(), 0, b.clean_aperture_width.numerator);
        }
    assert(b.clean_aperture_width.denominator == be32(b.spec_encode(), 4)) by {
            assert(b.spec_encode().subrange(4, 8) =~= u32_bytes(b.clean_aperture_width.denominator));
            lemma_be32_in(b.spec_encode(), 4, b.clean_aperture_width.denominator);
        }
    assert(b.clean_aperture_height.numerator == be32(b.spec_encode(), 8)) by {
            assert(b.spec_encode().subrange(8, 12) =~= u32_bytes(b.clean_aperture_height.numerator));
            lemma_be32_in(b.spec_encode(), 8, b.clean_aperture_height.numerator);
        }
    assert(b.clean_aperture_height.denominator == be32(b.spec_encode(), 12)) by {
            assert(b.spec_encode().subrange(12, 16) =~= u32_bytes(b.clean_aperture_height.denominator));
            lemma_be32_in(b.spec_encode(), 12, b.clean_aperture_height.denominator);
        }
    assert(b.horiz_offset.numerator == be32(b.spec_encode(), 16)) by {
            assert(b.spec_encode().subrange(16, 20) =~= u32_bytes(b.horiz_offset.numerator));
            lemma_be32_in(b.spec_encode(), 16, b.horiz_offset.numerator);
        }
    assert(b.horiz_offset.denominator == be32(b.spec_encode(), 20)) by {
            assert(b.spec_encode().subrange(20, 24) =~= u32_bytes(b.horiz_offset.denominator));
            lemma_be32_in(b.spec_encode(), 20, b.horiz_offset.denominator);
        }
    assert(b.vert_offset.numerator == be32(b.spec_encode(), 24)) by {
            assert(b.spec_encode().subrange(24, 28) =~= u32_bytes(b.vert_offset.numerator));
            lemma_be32_in(b.spec_encode(), 24, b.vert_offset.numerator);
        }
    assert(b.vert_offset.denominator == be32(b.spec_encode(), 28)) by {
            assert(b.spec_encode().subrange(28, 32) =~= u32_bytes(b.vert_offset.denominator));
            lemma_be32_in(b.spec_encode(), 28, b.vert_offset.denominator);
        }
}

/// Encoding the box decoded from a payload of exactly 32 bytes, whose
/// reserved bytes are zero, gives the payload back.
pub proof fn lemma_clap_reencode(s: Seq<u8>, b: ClapBox)
    requires
        s.len() == 32,
        ClapBox::spec_decodes(s, b),
    ensures
        b.spec_encode() == s,
{
    lemma_u32_bytes_of(s, 0);
    lemma_u32_bytes_of(s, 4);
    lemma_subrange_split(s, 0, 4, 8);
    lemma_u32_bytes_of(s, 8);
    lemma_subrange_split(s, 0, 8, 12);
    lemma_u32_bytes_of(s, 12);
    lemma_subrange_split(s, 0, 12, 16);
    lemma_u32_bytes_of(s, 16);
    lemma_subrange_split(s, 0, 16, 20);
    lemma_u32_bytes_of(s, 20);
    lemma_subrange_split(s, 0, 20, 24);
    lemma_u32_bytes_of(s, 24);
    lemma_subrange_split(s, 0, 24, 28);
    lemma_u32_bytes_of(s, 28);
    lemma_subrange_split(s, 0, 28, 32);
    assert(s.subrange(0, 32) =~= s);
}

/// The layout of a `clap` payload: what an owned `clap` box decoded from
/// `bytes` holds, field by field, read at fixed offsets.
pub proof fn lemma_clap_box_layout(bytes: Seq<u8>, v: ClapBox)
    requires
        ClapBox::spec_decodes(bytes, v),
    ensures
        v.clean_aperture_width.numerator == be32(bytes, 0),
        v.clean_aperture_width.denominator == be32(bytes, 4),
        v.clean_aperture_height.numerator == be32(bytes, 8),
        v.clean_aperture_height.denominator == be32(bytes, 12),
        v.horiz_offset.numerator == be32(bytes, 16),
        v.horiz_offset.denominator == be32(bytes, 20),
        v.vert_offset.numerator == be32(bytes, 24),
        v.vert_offset.denominator == be32(bytes, 28),
{
}

} // verus!
