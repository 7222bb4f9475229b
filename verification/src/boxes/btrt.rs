//! Bit Rate Box (`btrt`): the decoding buffer size and bit rates of a stream.
use vstd::prelude::*;

use crate::bytes::{be32, u32_bytes, lemma_be32_at, lemma_u32_bytes_of};
use crate::codec::{BoxCodec, BoxDecode, BoxEncode, short_buffer};
use crate::cursor::{put_u32, splice, ReadCursor};
use crate::error::Error;
use crate::types::BoxType;

verus! {

/// Bit Rate Box (`btrt`): decoding buffer size, maximum and average bit rates.
#[derive(Debug, Clone, Copy)]
pub struct BtrtBox {
    /// Size of the decoding buffer for the elementary stream in bytes.
    pub buffer_size_db: u32,
    /// Maximum rate in bits/second over any window of one second.
    pub max_bitrate: u32,
    /// Average rate in bits/second over the entire presentation.
    pub avg_bitrate: u32,
}

impl BoxCodec for BtrtBox {
    open spec fn spec_boxtype(&self) -> BoxType {
        BoxType::BTRT
    }

    fn boxtype(&self) -> (r: BoxType) {
        BoxType::BTRT
    }
}

impl<'de> BoxDecode<'de> for BtrtBox {
    open spec fn spec_accepts(bytes: Seq<u8>) -> bool {
        bytes.len() >= 12
    }

    open spec fn spec_decodes(bytes: Seq<u8>, v: Self) -> bool {
        &&& v.buffer_size_db == be32(bytes, 0)
        &&& v.max_bitrate == be32(bytes, 4)
        &&& v.avg_bitrate == be32(bytes, 8)
    }

    fn decode(bytes: &'de [u8]) -> (r: Result<Self, Error>) {
        let mut cur = ReadCursor::new(bytes);
        let buffer_size_db = cur.read_u32_be()?;
        let max_bitrate = cur.read_u32_be()?;
        let avg_bitrate = cur.read_u32_be()?;
        Ok(BtrtBox { buffer_size_db, max_bitrate, avg_bitrate })
    }
}

impl BoxEncode for BtrtBox {
    open spec fn spec_encode(&self) -> Seq<u8> {
        u32_bytes(self.buffer_size_db) + u32_bytes(self.max_bitrate) + u32_bytes(self.avg_bitrate)
    }

    open spec fn spec_encodable(&self) -> bool {
        true
    }

    fn encoded_len(&self) -> (r: usize) {
        12
    }

    fn encode_into(&self, bytes: &mut [u8]) -> (r: Result<usize, Error>) {
        let ghost s0 = bytes@;
        if bytes.len() < 12 {
            return Err(short_buffer(12, bytes.len()));
        }
        let p = put_u32(bytes, 0, self.buffer_size_db)?;
        let p = put_u32(bytes, p, self.max_bitrate)?;
        let p = put_u32(bytes, p, self.avg_bitrate)?;
        assert(bytes@ =~= splice(s0, 0, self.spec_encode()));
        Ok(p)
    }
}

/// Decoding the encoding of a `btrt` box gives the box back.
pub proof fn lemma_btrt_roundtrip(b: BtrtBox)
    ensures
        BtrtBox::spec_accepts(b.spec_encode()),
        BtrtBox::spec_decodes(b.spec_encode(), b),
{
    let (x, y, z) = (u32_bytes(b.buffer_size_db), u32_bytes(b.max_bitrate), u32_bytes(b.avg_bitrate));
    lemma_be32_at(Seq::empty(), b.buffer_size_db, y + z);
    lemma_be32_at(x, b.max_bitrate, z);
    lemma_be32_at(x + y, b.avg_bitrate, Seq::empty());
    assert(Seq::<u8>::empty() + x + (y + z) =~= b.spec_encode());
    assert(x + y + z + Seq::<u8>::empty() =~= b.spec_encode());
}

/// Encoding the box decoded from a 12-byte payload gives the payload back.
pub proof fn lemma_btrt_reencode(s: Seq<u8>, b: BtrtBox)
    requires
        s.len() == 12,
        BtrtBox::spec_decodes(s, b),
    ensures
        b.spec_encode() == s,
{
    lemma_u32_bytes_of(s, 0);
    lemma_u32_bytes_of(s, 4);
    lemma_u32_bytes_of(s, 8);
    assert(b.spec_encode() =~= s);
}

/// The layout of a `btrt` payload: what an owned `btrt` box decoded from
/// `bytes` holds, field by field, read at fixed offsets.
pub proof fn lemma_btrt_box_layout(bytes: Seq<u8>, v: BtrtBox)
    requires
        BtrtBox::spec_decodes(bytes, v),
    ensures
        v.buffer_size_db == be32(bytes, 0),
        v.max_bitrate == be32(bytes, 4),
        v.avg_bitrate == be32(bytes, 8),
{
}

} // verus!
