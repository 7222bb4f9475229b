//! Composition to Decode Box (`cslg`): how composition times relate to decoding times (32-bit layout).
use vstd::prelude::*;

use crate::bytes::{be24, be32, u24_bytes, u32_bytes, lemma_u24_bytes_of, lemma_u32_bytes_of, lemma_sign_casts, lemma_subrange_split, lemma_be24_in, lemma_be32_in};
use crate::codec::{BoxCodec, BoxDecode, BoxEncode, short_buffer};
use crate::cursor::{put_u8, put_u24, put_u32, lemma_splice_concat, ReadCursor};
use crate::error::Error;
use crate::flags::{BoxFlags, CslgFlags};
use crate::types::BoxType;

verus! {

/// Composition to Decode Box (`cslg`), with its 32-bit fields.
#[derive(Debug, Clone, Copy)]
pub struct CslgBox {
    /// Box version.
    pub version: u8,
    /// Box flags.
    pub flags: CslgFlags,
    /// Shift that makes all composition times at least their decoding times.
    pub composition_to_dts_shift: i32,
    /// Smallest composition offset in the track.
    pub least_decode_to_display_delta: i32,
    /// Largest composition offset in the track.
    pub greatest_decode_to_display_delta: i32,
    /// Smallest composition time in the track.
    pub composition_start_time: i32,
    /// Composition time plus duration of the last sample.
    pub composition_end_time: i32,
}

impl BoxCodec for CslgBox {
    open spec fn spec_boxtype(&self) -> BoxType {
        BoxType::CSLG
    }

    fn boxtype(&self) -> (r: BoxType) {
        BoxType::CSLG
    }
}

impl<'de> BoxDecode<'de> for CslgBox {
    open spec fn spec_accepts(bytes: Seq<u8>) -> bool {
        bytes.len() >= 24
    }

    open spec fn spec_decodes(bytes: Seq<u8>, v: Self) -> bool {
        &&& v.version == bytes[0]
        &&& v.flags.0 == be24(bytes, 1)
        &&& v.composition_to_dts_shift == be32(bytes, 4) as i32
        &&& v.least_decode_to_display_delta == be32(bytes, 8) as i32
        &&& v.greatest_decode_to_display_delta == be32(bytes, 12) as i32
        &&& v.composition_start_time == be32(bytes, 16) as i32
        &&& v.composition_end_time == be32(bytes, 20) as i32
    }

    fn decode(bytes: &'de [u8]) -> (r: Result<Self, Error>) {
        let mut cur = ReadCursor::new(bytes);
        let version_0 = cur.read_u8()?;
        let flags_0 = cur.read_u24_be()?;
        let composition_to_dts_shift_0 = cur.read_i32_be()?;
        let least_decode_to_display_delta_0 = cur.read_i32_be()?;
        let greatest_decode_to_display_delta_0 = cur.read_i32_be()?;
        let composition_start_time_0 = cur.read_i32_be()?;
        let composition_end_time_0 = cur.read_i32_be()?;
        Ok(CslgBox { version: version_0, flags: BoxFlags(flags_0), composition_to_dts_shift: composition_to_dts_shift_0, least_decode_to_display_delta: least_decode_to_display_delta_0, greatest_decode_to_display_delta: greatest_decode_to_display_delta_0, composition_start_time: composition_start_time_0, composition_end_time: composition_end_time_0 })
    }
}

impl BoxEncode for CslgBox {
    open spec fn spec_encode(&self) -> Seq<u8> {
        seq![self.version] + u24_bytes(self.flags.0) + u32_bytes(self.composition_to_dts_shift as u32) + u32_bytes(self.least_decode_to_display_delta as u32) + u32_bytes(self.greatest_decode_to_display_delta as u32) + u32_bytes(self.composition_start_time as u32) + u32_bytes(self.composition_end_time as u32)
    }

    open spec fn spec_encodable(&self) -> bool {
        true
    }

    fn encoded_len(&self) -> (r: usize) {
        24
    }

    fn encode_into(&self, bytes: &mut [u8]) -> (r: Result<usize, Error>) {
        let ghost s0 = bytes@;
        if bytes.len() < 24 {
            return Err(short_buffer(24, bytes.len()));
        }
        let p = put_u8(bytes, 0, self.version)?;
        let ghost mut acc = seq![self.version];
        let p = put_u24(bytes, p, self.flags.0)?;
        proof {
                lemma_splice_concat(s0, 0, acc, u24_bytes(self.flags.0));
                acc = acc + u24_bytes(self.flags.0);
            }
        let p = put_u32(bytes, p, self.composition_to_dts_shift as u32)?;
        proof {
                lemma_splice_concat(s0, 0, acc, u32_bytes(self.composition_to_dts_shift as u32));
                acc = acc + u32_bytes(self.composition_to_dts_shift as u32);
            }
        let p = put_u32(bytes, p, self.least_decode_to_display_delta as u32)?;
        proof {
                lemma_splice_concat(s0, 0, acc, u32_bytes(self.least_decode_to_display_delta as u32));
                acc = acc + u32_bytes(self.least_decode_to_display_delta as u32);
            }
        let p = put_u32(bytes, p, self.greatest_decode_to_display_delta as u32)?;
        proof {
                lemma_splice_concat(s0, 0, acc, u32_bytes(self.greatest_decode_to_display_delta as u32));
                acc = acc + u32_bytes(self.greatest_decode_to_display_delta as u32);
            }
        let p = put_u32(bytes, p, self.composition_start_time as u32)?;
        proof {
                lemma_splice_concat(s0, 0, acc, u32_bytes(self.composition_start_time as u32));
                acc = acc + u32_bytes(self.composition_start_time as u32);
            }
        let p = put_u32(bytes, p, self.composition_end_time as u32)?;
        proof {
                lemma_splice_concat(s0, 0, acc, u32_bytes(self.composition_end_time as u32));
                acc = acc + u32_bytes(self.composition_end_time as u32);
            }
        Ok(p)
    }
}

/// Decoding the encoding of a `cslg` box gives the box back.
pub proof fn lemma_cslg_roundtrip(b: CslgBox)
    requires
        b.flags.0 < 0x100_0000,
    ensures
        CslgBox::spec_accepts(b.spec_encode()),
        CslgBox::spec_decodes(b.spec_encode(), b),
{
    assert(b.version == b.spec_encode()[0]) by {
            assert(b.spec_encode().subrange(0, 1) =~= seq![b.version]);
            assert(b.spec_encode()[0] == b.spec_encode().subrange(0, 1)[0]);
        }
    assert(b.flags.0 == be24(b.spec_encode(), 1)) by {
            assert(b.spec_encode().subrange(1, 4) =~= u24_bytes(b.flags.0));
            lemma_be24_in(b.spec_encode(), 1, b.flags.0);
        }
    assert(b.composition_to_dts_shift == be32(b.spec_encode(), 4) as i32) by {
            assert(b.spec_encode().subrange(4, 8) =~= u32_bytes(b.composition_to_dts_shift as u32));
            lemma_be32_in(b.spec_encode(), 4, b.composition_to_dts_shift as u32);
            lemma_sign_casts(0, 0, b.composition_to_dts_shift, 0, 0, 0, 0, 0);
        }
    assert(b.least_decode_to_display_delta == be32(b.spec_encode(), 8) as i32) by {
            assert(b.spec_encode().subrange(8, 12) =~= u32_bytes(b.least_decode_to_display_delta as u32));
            lemma_be32_in(b.spec_encode(), 8, b.least_decode_to_display_delta as u32);
            lemma_sign_casts(0, 0, b.least_decode_to_display_delta, 0, 0, 0, 0, 0);
        }
    assert(b.greatest_decode_to_display_delta == be32(b.spec_encode(), 12) as i32) by {
            assert(b.spec_encode().subrange(12, 16) =~= u32_bytes(b.greatest_decode_to_display_delta as u32));
            lemma_be32_in(b.spec_encode(), 12, b.greatest_decode_to_display_delta as u32);
            lemma_sign_casts(0, 0, b.greatest_decode_to_display_delta, 0, 0, 0, 0, 0);
        }
    assert(b.composition_start_time == be32(b.spec_encode(), 16) as i32) by {
            assert(b.spec_encode().subrange(16, 20) =~= u32_bytes(b.composition_start_time as u32));
            lemma_be32_in(b.spec_encode(), 16, b.composition_start_time as u32);
            lemma_sign_casts(0, 0, b.composition_start_time, 0, 0, 0, 0, 0);
        }
    assert(b.composition_end_time == be32(b.spec_encode(), 20) as i32) by {
            assert(b.spec_encode().subrange(20, 24) =~= u32_bytes(b.composition_end_time as u32));
            lemma_be32_in(b.spec_encode(), 20, b.composition_end_time as u32);
            lemma_sign_casts(0, 0, b.composition_end_time, 0, 0, 0, 0, 0);
        }
}

/// Encoding the box decoded from a payload of exactly 24 bytes, whose
/// reserved bytes are zero, gives the payload back.
pub proof fn lemma_cslg_reencode(s: Seq<u8>, b: CslgBox)
    requires
        s.len() == 24,
        CslgBox::spec_decodes(s, b),
    ensures
        b.spec_encode() == s,
{
    assert(s.subrange(0, 1) =~= seq![s[0]]);
    lemma_u24_bytes_of(s, 1);
    lemma_subrange_split(s, 0, 1, 4);
    lemma_u32_bytes_of(s, 4);
    lemma_sign_casts(0, 0, 0, 0, 0, 0, be32(s, 4), 0);
    lemma_subrange_split(s, 0, 4, 8);
    lemma_u32_bytes_of(s, 8);
    lemma_sign_casts(0, 0, 0, 0, 0, 0, be32(s, 8), 0);
    lemma_subrange_split(s, 0, 8, 12);
    lemma_u32_bytes_of(s, 12);
    lemma_sign_casts(0, 0, 0, 0, 0, 0, be32(s, 12), 0);
    lemma_subrange_split(s, 0, 12, 16);
    lemma_u32_bytes_of(s, 16);
    lemma_sign_casts(0, 0, 0, 0, 0, 0, be32(s, 16), 0);
    lemma_subrange_split(s, 0, 16, 20);
    lemma_u32_bytes_of(s, 20);
    lemma_sign_casts(0, 0, 0, 0, 0, 0, be32(s, 20), 0);
    lemma_subrange_split(s, 0, 20, 24);
    assert(s.subrange(0, 24) =~= s);
}

/// The layout of a `cslg` payload: what an owned `cslg` box decoded from
/// `bytes` holds, field by field, read at fixed offsets.
pub proof fn lemma_cslg_box_layout(bytes: Seq<u8>, v: CslgBox)
    requires
        CslgBox::spec_decodes(bytes, v),
    ensures
        v.version == bytes[0],
        v.flags.0 == be24(bytes, 1),
        v.composition_to_dts_shift == be32(bytes, 4) as i32,
        v.least_decode_to_display_delta == be32(bytes, 8) as i32,
        v.greatest_decode_to_display_delta == be32(bytes, 12) as i32,
        v.composition_start_time == be32(bytes, 16) as i32,
        v.composition_end_time == be32(bytes, 20) as i32,
{
}

} // verus!
