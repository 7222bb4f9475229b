//! Track Extends Box (`trex`): the default sample values of a track's fragments.
use vstd::prelude::*;

use crate::bytes::{be24, be32, u24_bytes, u32_bytes, lemma_u24_bytes_of, lemma_u32_bytes_of, lemma_subrange_split, lemma_be24_in, lemma_be32_in};
use crate::codec::{BoxCodec, BoxDecode, BoxEncode, short_buffer};
use crate::cursor::{put_u8, put_u24, put_u32, lemma_splice_concat, ReadCursor};
use crate::error::Error;
use crate::flags::{BoxFlags, TrexFlags};
use crate::types::BoxType;
use crate::boxes::common::SampleFlags;

verus! {

/// Track Extends Box (`trex`): per-track defaults used by movie fragments.
#[derive(Debug, Clone, Copy)]
pub struct TrexBox {
    /// Box version.
    pub version: u8,
    /// Box flags.
    pub flags: TrexFlags,
    /// The track these defaults apply to.
    pub track_id: u32,
    /// Default sample description index.
    pub default_sample_description_index: u32,
    /// Default sample duration.
    pub default_sample_duration: u32,
    /// Default sample size.
    pub default_sample_size: u32,
    /// Default sample flags.
    pub default_sample_flags: SampleFlags,
}

impl BoxCodec for TrexBox {
    open spec fn spec_boxtype(&self) -> BoxType {
        BoxType::TREX
    }

    fn boxtype(&self) -> (r: BoxType) {
        BoxType::TREX
    }
}

impl<'de> BoxDecode<'de> for TrexBox {
    open spec fn spec_accepts(bytes: Seq<u8>) -> bool {
        bytes.len() >= 24
    }

    open spec fn spec_decodes(bytes: Seq<u8>, v: Self) -> bool {
        &&& v.version == bytes[0]
        &&& v.flags.0 == be24(bytes, 1)
        &&& v.track_id == be32(bytes, 4)
        &&& v.default_sample_description_index == be32(bytes, 8)
        &&& v.default_sample_duration == be32(bytes, 12)
        &&& v.default_sample_size == be32(bytes, 16)
        &&& v.default_sample_flags.0 == be32(bytes, 20)
    }

    fn decode(bytes: &'de [u8]) -> (r: Result<Self, Error>) {
        let mut cur = ReadCursor::new(bytes);
        let version_0 = cur.read_u8()?;
        let flags_0 = cur.read_u24_be()?;
        let track_id_0 = cur.read_u32_be()?;
        let default_sample_description_index_0 = cur.read_u32_be()?;
        let default_sample_duration_0 = cur.read_u32_be()?;
        let default_sample_size_0 = cur.read_u32_be()?;
        let default_sample_flags_0 = cur.read_u32_be()?;
        Ok(TrexBox { version: version_0, flags: BoxFlags(flags_0), track_id: track_id_0, default_sample_description_index: default_sample_description_index_0, default_sample_duration: default_sample_duration_0, default_sample_size: default_sample_size_0, default_sample_flags: SampleFlags(default_sample_flags_0) })
    }
}

impl BoxEncode for TrexBox {
    open spec fn spec_encode(&self) -> Seq<u8> {
        seq![self.version] + u24_bytes(self.flags.0) + u32_bytes(self.track_id) + u32_bytes(self.default_sample_description_index) + u32_bytes(self.default_sample_duration) + u32_bytes(self.default_sample_size) + u32_bytes(self.default_sample_flags.0)
    }

    open spec fn spec_encodable(&self) -> bool {
        true
    }

    fn encoded_len(&self) -> (r: usize) {
        24
    }

    fn encode_into(&self, bytes: &mut [u8]) -> (r: Result<usize, Error>) {
        let ghost s0 = bytes@;
        if bytes.len() < 24 {
            return Err(short_buffer(24, bytes.len()));
        }
        let p = put_u8(bytes, 0, self.version)?;
        let ghost mut acc = seq![self.version];
        let p = put_u24(bytes, p, self.flags.0)?;
        proof {
                lemma_splice_concat(s0, 0, acc, u24_bytes(self.flags.0));
                acc = acc + u24_bytes(self.flags.0);
            }
        let p = put_u32(bytes, p, self.track_id)?;
        proof {
                lemma_splice_concat(s0, 0, acc, u32_bytes(self.track_id));
                acc = acc + u32_bytes(self.track_id);
            }
        let p = put_u32(bytes, p, self.default_sample_description_index)?;
        proof {
                lemma_splice_concat(s0, 0, acc, u32_bytes(self.default_sample_description_index));
                acc = acc + u32_bytes(self.default_sample_description_index);
            }
        let p = put_u32(bytes, p, self.default_sample_duration)?;
        proof {
                lemma_splice_concat(s0, 0, acc, u32_bytes(self.default_sample_duration));
                acc = acc + u32_bytes(self.default_sample_duration);
            }
        let p = put_u32(bytes, p, self.default_sample_size)?;
        proof {
                lemma_splice_concat(s0, 0, acc, u32_bytes(self.default_sample_size));
                acc = acc + u32_bytes(self.default_sample_size);
            }
        let p = put_u32(bytes, p, self.default_sample_flags.0)?;
        proof {
                lemma_splice_concat(s0, 0, acc, u32_bytes(self.default_sample_flags.0));
                acc = acc + u32_bytes(self.default_sample_flags.0);
            }
        Ok(p)
    }
}

impl Default for TrexBox {
    fn default() -> (r: TrexBox)
        ensures
            r.version == 0,
            r.flags.0 == 0,
            r.track_id == 0,
            r.default_sample_description_index == 0,
            r.default_sample_duration == 0,
            r.default_sample_size == 0,
            r.default_sample_flags.0 == 0,
    {
        TrexBox { version: 0, flags: BoxFlags(0), track_id: 0, default_sample_description_index: 0, default_sample_duration: 0, default_sample_size: 0, default_sample_flags: SampleFlags(0) }
    }
}

/// Decoding the encoding of a `trex` box gives the box back.
pub proof fn lemma_trex_roundtrip(b: TrexBox)
    requires
        b.flags.0 < 0x100_0000,
    ensures
        TrexBox::spec_accepts(b.spec_encode()),
        TrexBox::spec_decodes(b.spec_encode(), b),
{
    assert(b.version == b.spec_encode()[0]) by {
            assert(b.spec_encode().subrange(0, 1) =~= seq![b.version]);
            assert(b.spec_encode()[0] == b.spec_encode().subrange(0, 1)[0]);
        }
    assert(b.flags.0 == be24(b.spec_encode(), 1)) by {
            assert(b.spec_encode().subrange(1, 4) =~= u24_bytes(b.flags.0));
            lemma_be24_in(b.spec_encode(), 1, b.flags.0);
        }
    assert(b.track_id == be32(b.spec_encode(), 4)) by {
            assert(b.spec_encode().subrange(4, 8) =~= u32_bytes(b.track_id));
            lemma_be32_in(b.spec_encode(), 4, b.track_id);
        }
    assert(b.default_sample_description_index == be32(b.spec_encode(), 8)) by {
            assert(b.spec_encode().subrange(8, 12) =~= u32_bytes(b.default_sample_description_index));
            lemma_be32_in(b.spec_encode(), 8, b.default_sample_description_index);
        }
    assert(b.default_sample_duration == be32(b.spec_encode(), 12)) by {
            assert(b.spec_encode().subrange(12, 16) =~= u32_bytes(b.default_sample_duration));
            lemma_be32_in(b.spec_encode(), 12, b.default_sample_duration);
        }
    assert(b.default_sample_size == be32(b.spec_encode(), 16)) by {
            assert(b.spec_encode().subrange(16, 20) =~= u32_bytes(b.default_sample_size));
            lemma_be32_in(b.spec_encode(), 16, b.default_sample_size);
        }
    assert(b.default_sample_flags.0 == be32(b.spec_encode(), 20)) by {
            assert(b.spec_encode().subrange(20, 24) =~= u32_bytes(b.default_sample_flags.0));
            lemma_be32_in(b.spec_encode(), 20, b.default_sample_flags.0);
        }
}

/// Encoding the box decoded from a payload of exactly 24 bytes, whose
/// reserved bytes are zero, gives the payload back.
pub proof fn lemma_trex_reencode(s: Seq<u8>, b: TrexBox)
    requires
        s.len() == 24,
        TrexBox::spec_decodes(s, b),
    ensures
        b.spec_encode() == s,
{
    assert(s.subrange(0, 1) =~= seq![s[0]]);
    lemma_u24_bytes_of(s, 1);
    lemma_subrange_split(s, 0, 1, 4);
    lemma_u32_bytes_of(s, 4);
    lemma_subrange_split(s, 0, 4, 8);
    lemma_u32_bytes_of(s, 8);
    lemma_subrange_split(s, 0, 8, 12);
    lemma_u32_bytes_of(s, 12);
    lemma_subrange_split(s, 0, 12, 16);
    lemma_u32_bytes_of(s, 16);
    lemma_subrange_split(s, 0, 16, 20);
    lemma_u32_bytes_of(s, 20);
    lemma_subrange_split(s, 0, 20, 24);
    assert(s.subrange(0, 24) =~= s);
}

/// The layout of a `trex` payload: what an owned `trex` box decoded from
/// `bytes` holds, field by field, read at fixed offsets.
pub proof fn lemma_trex_box_layout(bytes: Seq<u8>, v: TrexBox)
    requires
        TrexBox::spec_decodes(bytes, v),
    ensures
        v.version == bytes[0],
        v.flags.0 == be24(bytes, 1),
        v.track_id == be32(bytes, 4),
        v.default_sample_description_index == be32(bytes, 8),
        v.default_sample_duration == be32(bytes, 12),
        v.default_sample_size == be32(bytes, 16),
        v.default_sample_flags.0 == be32(bytes, 20),
{
}

} // verus!
