//! Sound Media Header Box (`smhd`): the stereo balance of an audio track.
use vstd::prelude::*;

use crate::bytes::{be16, be24, u16_bytes, u24_bytes, lemma_u16_bytes_of, lemma_u24_bytes_of, lemma_sign_casts, lemma_subrange_split, lemma_be16_in, lemma_be24_in};
use crate::codec::{BoxCodec, BoxDecode, BoxEncode, short_buffer};
use crate::cursor::{put_u8, put_u16, put_u24, put_zeros, lemma_splice_concat, ReadCursor};
use crate::error::Error;
use crate::flags::{BoxFlags, SmhdFlags};
use crate::types::{BoxType, I8F8};

verus! {

/// Sound Media Header Box (`smhd`): version, flags and stereo balance (signed 8.8).
#[derive(Debug, Clone, Copy)]
pub struct SmhdBox {
    /// Box version.
    pub version: u8,
    /// Box flags.
    pub flags: SmhdFlags,
    /// Stereo balance as signed 8.8 fixed point (0 = centre).
    pub balance: I8F8,
}

impl BoxCodec for SmhdBox {
    open spec fn spec_boxtype(&self) -> BoxType {
        BoxType::SMHD
    }

    fn boxtype(&self) -> (r: BoxType) {
        BoxType::SMHD
    }
}

impl<'de> BoxDecode<'de> for SmhdBox {
    open spec fn spec_accepts(bytes: Seq<u8>) -> bool {
        bytes.len() >= 8
    }

    open spec fn spec_decodes(bytes: Seq<u8>, v: Self) -> bool {
        &&& v.version == bytes[0]
        &&& v.flags.0 == be24(bytes, 1)
        &&& v.balance.0 == be16(bytes, 4) as i16
    }

    fn decode(bytes: &'de [u8]) -> (r: Result<Self, Error>) {
        let mut cur = ReadCursor::new(bytes);
        let version_0 = cur.read_u8()?;
        let flags_0 = cur.read_u24_be()?;
        let balance_0 = cur.read_i16_be()?;
        cur.advance(2)?;
        Ok(SmhdBox { version: version_0, flags: BoxFlags(flags_0), balance: I8F8(balance_0) })
    }
}

impl BoxEncode for SmhdBox {
    open spec fn spec_encode(&self) -> Seq<u8> {
        seq![self.version] + u24_bytes(self.flags.0) + u16_bytes(self.balance.0 as u16) + Seq::new(2 as nat, |i: int| 0u8)
    }

    open spec fn spec_encodable(&self) -> bool {
        true
    }

    fn encoded_len(&self) -> (r: usize) {
        8
    }

    fn encode_into(&self, bytes: &mut [u8]) -> (r: Result<usize, Error>) {
        let ghost s0 = bytes@;
        if bytes.len() < 8 {
            return Err(short_buffer(8, bytes.len()));
        }
        let p = put_u8(bytes, 0, self.version)?;
        let ghost mut acc = seq![self.version];
        let p = put_u24(bytes, p, self.flags.0)?;
        proof {
                lemma_splice_concat(s0, 0, acc, u24_bytes(self.flags.0));
                acc = acc + u24_bytes(self.flags.0);
            }
        let p = put_u16(bytes, p, self.balance.0 as u16)?;
        proof {
                lemma_splice_concat(s0, 0, acc, u16_bytes(self.balance.0 as u16));
                acc = acc + u16_bytes(self.balance.0 as u16);
            }
        let p = put_zeros(bytes, p, 2)?;
        proof {
                lemma_splice_concat(s0, 0, acc, Seq::new(2 as nat, |i: int| 0u8));
                acc = acc + Seq::new(2 as nat, |i: int| 0u8);
            }
        Ok(p)
    }
}

impl Default for SmhdBox {
    fn default() -> (r: SmhdBox)
        ensures
            r.version == 0,
            r.flags.0 == 0,
            r.balance.0 == 0,
    {
        SmhdBox { version: 0, flags: BoxFlags(0), balance: I8F8(0) }
    }
}

/// Decoding the encoding of a `smhd` box gives the box back.
pub proof fn lemma_smhd_roundtrip(b: SmhdBox)
    requires
        b.flags.0 < 0x100_0000,
    ensures
        SmhdBox::spec_accepts(b.spec_encode()),
        SmhdBox::spec_decodes(b.spec_encode(), b),
{
    assert(b.version == b.spec_encode()[0]) by {
            assert(b.spec_encode().subrange(0, 1) =~= seq![b.version]);
            assert(b.spec_encode()[0] == b.spec_encode().subrange(0, 1)[0]);
        }
    assert(b.flags.0 == be24(b.spec_encode(), 1)) by {
            assert(b.spec_encode().subrange(1, 4) =~= u24_bytes(b.flags.0));
            lemma_be24_in(b.spec_encode(), 1, b.flags.0);
        }
    assert(b.balance.0 == be16(b.spec_encode(), 4) as i16) by {
            assert(b.spec_encode().subrange(4, 6) =~= u16_bytes(b.balance.0 as u16));
            lemma_be16_in(b.spec_encode(), 4, b.balance.0 as u16);
            lemma_sign_casts(0, b.balance.0, 0, 0, 0, 0, 0, 0);
        }
}

/// Encoding the box decoded from a payload of exactly 8 bytes, whose
/// reserved bytes are zero, gives the payload back.
pub proof fn lemma_smhd_reencode(s: Seq<u8>, b: SmhdBox)
    requires
        s.len() == 8,
        s.subrange(6, 8) == Seq::new(2 as nat, |i: int| 0u8),
        SmhdBox::spec_decodes(s, b),
    ensures
        b.spec_encode() == s,
{
    assert(s.subrange(0, 1) =~= seq![s[0]]);
    lemma_u24_bytes_of(s, 1);
    lemma_subrange_split(s, 0, 1, 4);
    lemma_u16_bytes_of(s, 4);
    lemma_sign_casts(0, 0, 0, 0, 0, be16(s, 4), 0, 0);
    lemma_subrange_split(s, 0, 4, 6);
    lemma_subrange_split(s, 0, 6, 8);
    assert(s.subrange(0, 8) =~= s);
}

/// The layout of a `smhd` payload: what an owned `smhd` box decoded from
/// `bytes` holds, field by field, read at fixed offsets.
pub proof fn lemma_smhd_box_layout(bytes: Seq<u8>, v: SmhdBox)
    requires
        SmhdBox::spec_decodes(bytes, v),
    ensures
        v.version == bytes[0],
        v.flags.0 == be24(bytes, 1),
        v.balance.0 == be16(bytes, 4) as i16,
{
}

} // verus!
