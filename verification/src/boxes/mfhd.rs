//! Movie Fragment Header Box (`mfhd`): the sequence number of a movie fragment.
use vstd::prelude::*;

use crate::bytes::{be24, be32, u24_bytes, u32_bytes, lemma_u24_bytes_of, lemma_u32_bytes_of, lemma_subrange_split, lemma_be24_in, lemma_be32_in};
use crate::codec::{BoxCodec, BoxDecode, BoxEncode, short_buffer};
use crate::cursor::{put_u8, put_u24, put_u32, lemma_splice_concat, ReadCursor};
use crate::error::Error;
use crate::flags::{BoxFlags, MfhdFlags};
use crate::types::BoxType;

verus! {

/// Movie Fragment Header Box (`mfhd`): version, flags and the 1-based fragment sequence number.
#[derive(Debug, Clone, Copy)]
pub struct MfhdBox {
    /// Box version (should be 0).
    pub version: u8,
    /// Reserved flags (should be 0).
    pub flags: MfhdFlags,
    /// Fragment sequence number (1-based, one more for each fragment).
    pub sequence_number: u32,
}

impl MfhdBox {
    /// A header with the given sequence number, version 0 and no flags.
    pub fn new(sequence_number: u32) -> (r: MfhdBox)
        ensures
            r.version == 0,
            r.flags.0 == 0,
            r.sequence_number == sequence_number,
    {
        MfhdBox { version: 0, flags: BoxFlags::empty(), sequence_number }
    }
}

impl BoxCodec for MfhdBox {
    open spec fn spec_boxtype(&self) -> BoxType {
        BoxType::MFHD
    }

    fn boxtype(&self) -> (r: BoxType) {
        BoxType::MFHD
    }
}

impl<'de> BoxDecode<'de> for MfhdBox {
    open spec fn spec_accepts(bytes: Seq<u8>) -> bool {
        bytes.len() >= 8
    }

    open spec fn spec_decodes(bytes: Seq<u8>, v: Self) -> bool {
        &&& v.version == bytes[0]
        &&& v.flags.0 == be24(bytes, 1)
        &&& v.sequence_number == be32(bytes, 4)
    }

    fn decode(bytes: &'de [u8]) -> (r: Result<Self, Error>) {
        let mut cur = ReadCursor::new(bytes);
        let version_0 = cur.read_u8()?;
        let flags_0 = cur.read_u24_be()?;
        let sequence_number_0 = cur.read_u32_be()?;
        Ok(MfhdBox { version: version_0, flags: BoxFlags(flags_0), sequence_number: sequence_number_0 })
    }
}

impl BoxEncode for MfhdBox {
    open spec fn spec_encode(&self) -> Seq<u8> {
        seq![self.version] + u24_bytes(self.flags.0) + u32_bytes(self.sequence_number)
    }

    open spec fn spec_encodable(&self) -> bool {
        true
    }

    fn encoded_len(&self) -> (r: usize) {
        8
    }

    fn encode_into(&self, bytes: &mut [u8]) -> (r: Result<usize, Error>) {
        let ghost s0 = bytes@;
        if bytes.len() < 8 {
            return Err(short_buffer(8, bytes.len()));
        }
        let p = put_u8(bytes, 0, self.version)?;
        let ghost mut acc = seq![self.version];
        let p = put_u24(bytes, p, self.flags.0)?;
        proof {
                lemma_splice_concat(s0, 0, acc, u24_bytes(self.flags.0));
                acc = acc + u24_bytes(self.flags.0);
            }
        let p = put_u32(bytes, p, self.sequence_number)?;
        proof {
                lemma_splice_concat(s0, 0, acc, u32_bytes(self.sequence_number));
                acc = acc + u32_bytes(self.sequence_number);
            }
        Ok(p)
    }
}

/// Decoding the encoding of a `mfhd` box gives the box back.
pub proof fn lemma_mfhd_roundtrip(b: MfhdBox)
    requires
        b.flags.0 < 0x100_0000,
    ensures
        MfhdBox::spec_accepts(b.spec_encode()),
        MfhdBox::spec_decodes(b.spec_encode(), b),
{
    assert(b.version == b.spec_encode()[0]) by {
            assert(b.spec_encode().subrange(0, 1) =~= seq![b.version]);
            assert(b.spec_encode()[0] == b.spec_encode().subrange(0, 1)[0]);
        }
    assert(b.flags.0 == be24(b.spec_encode(), 1)) by {
            assert(b.spec_encode().subrange(1, 4) =~= u24_bytes(b.flags.0));
            lemma_be24_in(b.spec_encode(), 1, b.flags.0);
        }
    assert(b.sequence_number == be32(b.spec_encode(), 4)) by {
            assert(b.spec_encode().subrange(4, 8) =~= u32_bytes(b.sequence_number));
            lemma_be32_in(b.spec_encode(), 4, b.sequence_number);
        }
}

/// Encoding the box decoded from a payload of exactly 8 bytes, whose
/// reserved bytes are zero, gives the payload back.
pub proof fn lemma_mfhd_reencode(s: Seq<u8>, b: MfhdBox)
    requires
        s.len() == 8,
        MfhdBox::spec_decodes(s, b),
    ensures
        b.spec_encode() == s,
{
    assert(s.subrange(0, 1) =~= seq![s[0]]);
    lemma_u24_bytes_of(s, 1);
    lemma_subrange_split(s, 0, 1, 4);
    lemma_u32_bytes_of(s, 4);
    lemma_subrange_split(s, 0, 4, 8);
    assert(s.subrange(0, 8) =~= s);
}

/// The layout of a `mfhd` payload: what an owned `mfhd` box decoded from
/// `bytes` holds, field by field, read at fixed offsets.
pub proof fn lemma_mfhd_box_layout(bytes: Seq<u8>, v: MfhdBox)
    requires
        MfhdBox::spec_decodes(bytes, v),
    ensures
        v.version == bytes[0],
        v.flags.0 == be24(bytes, 1),
        v.sequence_number == be32(bytes, 4),
{
}

} // verus!
