//! Hint Media Header Box (`hmhd`): packet and bit rate information of a hint track.
use vstd::prelude::*;

use crate::bytes::{be16, be24, be32, u16_bytes, u24_bytes, u32_bytes, lemma_u16_bytes_of, lemma_u24_bytes_of, lemma_u32_bytes_of, lemma_subrange_split, lemma_be16_in, lemma_be24_in, lemma_be32_in};
use crate::codec::{BoxCodec, BoxDecode, BoxEncode, short_buffer};
use crate::cursor::{put_u8, put_u16, put_u24, put_u32, put_zeros, lemma_splice_concat, ReadCursor};
use crate::error::Error;
use crate::flags::{BoxFlags, HmhdFlags};
use crate::types::BoxType;

verus! {

/// Hint Media Header Box (`hmhd`).
#[derive(Debug, Clone, Copy)]
pub struct HmhdBox {
    /// Box version.
    pub version: u8,
    /// Box flags.
    pub flags: HmhdFlags,
    /// Size in bytes of the largest protocol data unit.
    pub max_pdu_size: u16,
    /// Average size of a protocol data unit.
    pub avg_pdu_size: u16,
    /// Maximum rate in bits per second over any one-second window.
    pub max_bit_rate: u32,
    /// Average rate in bits per second over the presentation.
    pub avg_bit_rate: u32,
}

impl BoxCodec for HmhdBox {
    open spec fn spec_boxtype(&self) -> BoxType {
        BoxType::HMHD
    }

    fn boxtype(&self) -> (r: BoxType) {
        BoxType::HMHD
    }
}

impl<'de> BoxDecode<'de> for HmhdBox {
    open spec fn spec_accepts(bytes: Seq<u8>) -> bool {
        bytes.len() >= 20
    }

    open spec fn spec_decodes(bytes: Seq<u8>, v: Self) -> bool {
        &&& v.version == bytes[0]
        &&& v.flags.0 == be24(bytes, 1)
        &&& v.max_pdu_size == be16(bytes, 4)
        &&& v.avg_pdu_size == be16(bytes, 6)
        &&& v.max_bit_rate == be32(bytes, 8)
        &&& v.avg_bit_rate == be32(bytes, 12)
    }

    fn decode(bytes: &'de [u8]) -> (r: Result<Self, Error>) {
        let mut cur = ReadCursor::new(bytes);
        let version_0 = cur.read_u8()?;
        let flags_0 = cur.read_u24_be()?;
        let max_pdu_size_0 = cur.read_u16_be()?;
        let avg_pdu_size_0 = cur.read_u16_be()?;
        let max_bit_rate_0 = cur.read_u32_be()?;
        let avg_bit_rate_0 = cur.read_u32_be()?;
        cur.advance(4)?;
        Ok(HmhdBox { version: version_0, flags: BoxFlags(flags_0), max_pdu_size: max_pdu_size_0, avg_pdu_size: avg_pdu_size_0, max_bit_rate: max_bit_rate_0, avg_bit_rate: avg_bit_rate_0 })
    }
}

impl BoxEncode for HmhdBox {
    open spec fn spec_encode(&self) -> Seq<u8> {
        seq![self.version] + u24_bytes(self.flags.0) + u16_bytes(self.max_pdu_size) + u16_bytes(self.avg_pdu_size) + u32_bytes(self.max_bit_rate) + u32_bytes(self.avg_bit_rate) + Seq::new(4 as nat, |i: int| 0u8)
    }

    open spec fn spec_encodable(&self) -> bool {
        true
    }

    fn encoded_len(&self) -> (r: usize) {
        20
    }

    fn encode_into(&self, bytes: &mut [u8]) -> (r: Result<usize, Error>) {
        let ghost s0 = bytes@;
        if bytes.len() < 20 {
            return Err(short_buffer(20, bytes.len()));
        }
        let p = put_u8(bytes, 0, self.version)?;
        let ghost mut acc = seq![self.version];
        let p = put_u24(bytes, p, self.flags.0)?;
        proof {
                lemma_splice_concat(s0, 0, acc, u24_bytes(self.flags.0));
                acc = acc + u24_bytes(self.flags.0);
            }
        let p = put_u16(bytes, p, self.max_pdu_size)?;
        proof {
                lemma_splice_concat(s0, 0, acc, u16_bytes(self.max_pdu_size));
                acc = acc + u16_bytes(self.max_pdu_size);
            }
        let p = put_u16(bytes, p, self.avg_pdu_size)?;
        proof {
                lemma_splice_concat(s0, 0, acc, u16_bytes(self.avg_pdu_size));
                acc = acc + u16_bytes(self.avg_pdu_size);
            }
        let p = put_u32(bytes, p, self.max_bit_rate)?;
        proof {
                lemma_splice_concat(s0, 0, acc, u32_bytes(self.max_bit_rate));
                acc = acc + u32_bytes(self.max_bit_rate);
            }
        let p = put_u32(bytes, p, self.avg_bit_rate)?;
        proof {
                lemma_splice_concat(s0, 0, acc, u32_bytes(self.avg_bit_rate));
                acc = acc + u32_bytes(self.avg_bit_rate);
            }
        let p = put_zeros(bytes, p, 4)?;
        proof {
                lemma_splice_concat(s0, 0, acc, Seq::new(4 as nat, |i: int| 0u8));
                acc = acc + Seq::new(4 as nat, |i: int| 0u8);
            }
        Ok(p)
    }
}

impl Default for HmhdBox {
    fn default() -> (r: HmhdBox)
        ensures
            r.version == 0,
            r.flags.0 == 0,
            r.max_pdu_size == 0,
            r.avg_pdu_size == 0,
            r.max_bit_rate == 0,
            r.avg_bit_rate == 0,
    {
        HmhdBox { version: 0, flags: BoxFlags(0), max_pdu_size: 0, avg_pdu_size: 0, max_bit_rate: 0, avg_bit_rate: 0 }
    }
}

/// Decoding the encoding of a `hmhd` box gives the box back.
pub proof fn lemma_hmhd_roundtrip(b: HmhdBox)
    requires
        b.flags.0 < 0x100_0000,
    ensures
        HmhdBox::spec_accepts(b.spec_encode()),
        HmhdBox::spec_decodes(b.spec_encode(), b),
{
    assert(b.version == b.spec_encode()[0]) by {
            assert(b.spec_encode().subrange(0, 1) =~= seq![b.version]);
            assert(b.spec_encode()[0] == b.spec_encode().subrange(0, 1)[0]);
        }
    assert(b.flags.0 == be24(b.spec_encode(), 1)) by {
            assert(b.spec_encode().subrange(1, 4) =~= u24_bytes(b.flags.0));
            lemma_be24_in(b.spec_encode(), 1, b.flags.0);
        }
    assert(b.max_pdu_size == be16(b.spec_encode(), 4)) by {
            assert(b.spec_encode().subrange(4, 6) =~= u16_bytes(b.max_pdu_size));
            lemma_be16_in(b.spec_encode(), 4, b.max_pdu_size);
        }
    assert(b.avg_pdu_size == be16(b.spec_encode(), 6)) by {
            assert(b.spec_encode().subrange(6, 8) =~= u16_bytes(b.avg_pdu_size));
            lemma_be16_in(b.spec_encode(), 6, b.avg_pdu_size);
        }
    assert(b.max_bit_rate == be32(b.spec_encode(), 8)) by {
            assert(b.spec_encode().subrange(8, 12) =~= u32_bytes(b.max_bit_rate));
            lemma_be32_in(b.spec_encode(), 8, b.max_bit_rate);
        }
    assert(b.avg_bit_rate == be32(b.spec_encode(), 12)) by {
            assert(b.spec_encode().subrange(12, 16) =~= u32_bytes(b.avg_bit_rate));
            lemma_be32_in(b.spec_encode(), 12, b.avg_bit_rate);
        }
}

/// Encoding the box decoded from a payload of exactly 20 bytes, whose
/// reserved bytes are zero, gives the payload back.
pub proof fn lemma_hmhd_reencode(s: Seq<u8>, b: HmhdBox)
    requires
        s.len() == 20,
        s.subrange(16, 20) == Seq::new(4 as nat, |i: int| 0u8),
        HmhdBox::spec_decodes(s, b),
    ensures
        b.spec_encode() == s,
{
    assert(s.subrange(0, 1) =~= seq![s[0]]);
    lemma_u24_bytes_of(s, 1);
    lemma_subrange_split(s, 0, 1, 4);
    lemma_u16_bytes_of(s, 4);
    lemma_subrange_split(s, 0, 4, 6);
    lemma_u16_bytes_of(s, 6);
    lemma_subrange_split(s, 0, 6, 8);
    lemma_u32_bytes_of(s, 8);
    lemma_subrange_split(s, 0, 8, 12);
    lemma_u32_bytes_of(s, 12);
    lemma_subrange_split(s, 0, 12, 16);
    lemma_subrange_split(s, 0, 16, 20);
    assert(s.subrange(0, 20) =~= s);
}

/// The layout of a `hmhd` payload: what an owned `hmhd` box decoded from
/// `bytes` holds, field by field, read at fixed offsets.
pub proof fn lemma_hmhd_box_layout(bytes: Seq<u8>, v: HmhdBox)
    requires
        HmhdBox::spec_decodes(bytes, v),
    ensures
        v.version == bytes[0],
        v.flags.0 == be24(bytes, 1),
        v.max_pdu_size == be16(bytes, 4),
        v.avg_pdu_size == be16(bytes, 6),
        v.max_bit_rate == be32(bytes, 8),
        v.avg_bit_rate == be32(bytes, 12),
{
}

} // verus!
