//! Movie Extends Header Box (`mehd`): the overall duration of a fragmented movie.
use vstd::prelude::*;

use crate::bytes::{be24, be32, be64, u24_bytes, u32_bytes, u64_bytes, lemma_u24_bytes_of, lemma_u32_bytes_of, lemma_u64_bytes_of, lemma_subrange_split, lemma_be24_in, lemma_be32_in, lemma_be64_in};
use crate::codec::{BoxCodec, BoxDecode, BoxEncode, short_buffer};
use crate::cursor::{put_u8, put_u24, put_u32, put_u64, lemma_splice_concat, ReadCursor};
use crate::error::{Error, ErrorKind};
use crate::flags::{BoxFlags, MehdFlags};
use crate::types::BoxType;

verus! {

/// Movie Extends Header Box (`mehd`): the duration of the whole fragmented movie.
#[derive(Debug, Clone, Copy)]
pub struct MehdBox {
    /// Box version: 0 for 32-bit times and durations, 1 for 64-bit ones.
    pub version: u8,
    /// Box flags.
    pub flags: MehdFlags,
    /// Duration of the longest track, fragments included, in the movie timescale.
    pub fragment_duration: u64,
}

impl BoxCodec for MehdBox {
    open spec fn spec_boxtype(&self) -> BoxType {
        BoxType::MEHD
    }

    fn boxtype(&self) -> (r: BoxType) {
        BoxType::MEHD
    }
}

impl MehdBox {
    /// The payloads of version 0 and version 1.
    pub open spec fn spec_valid(bytes: Seq<u8>) -> bool {
        ||| bytes.len() >= 8 && bytes[0] == 0 && true
        ||| bytes.len() >= 12 && bytes[0] == 1 && true
    }
}

impl<'de> BoxDecode<'de> for MehdBox {
    open spec fn spec_accepts(bytes: Seq<u8>) -> bool {
        MehdBox::spec_valid(bytes)
    }

    open spec fn spec_decodes(bytes: Seq<u8>, v: Self) -> bool {
        &&& v.version == bytes[0]
        &&& v.flags.0 == be24(bytes, 1)
        &&& v.version == 0 ==> v.fragment_duration == be32(bytes, 4) as u64
        &&& v.version == 1 ==> v.fragment_duration == be64(bytes, 4)
    }

    fn decode(bytes: &'de [u8]) -> (r: Result<Self, Error>)
        ensures
            bytes@.len() >= 4 && bytes@[0] > 1 ==> r == Err::<Self, Error>(Error { kind: ErrorKind::InvalidBoxVersion { reason: "0 or 1 in this specification", got: bytes@[0] }, offset: None, box_type: Some(BoxType::MEHD) }),
    {
        let mut cur = ReadCursor::new(bytes);
        let version = cur.read_u8()?;
        let flags = BoxFlags(cur.read_u24_be()?);
        if version == 0 {
            let fragment_duration_0 = cur.read_u32_be()? as u64;
            let r = MehdBox { version, flags, fragment_duration: fragment_duration_0 };
            
            Ok(r)
        } else if version == 1 {
            let fragment_duration_0 = cur.read_u64_be()?;
            let r = MehdBox { version, flags, fragment_duration: fragment_duration_0 };
            
            Ok(r)
        } else {
            Err(Error::in_box(ErrorKind::InvalidBoxVersion { reason: "0 or 1 in this specification", got: version }, BoxType::MEHD))
        }
    }
}

impl BoxEncode for MehdBox {
    open spec fn spec_encode(&self) -> Seq<u8> {
        if self.version == 0 {
            seq![self.version] + u24_bytes(self.flags.0) + u32_bytes(self.fragment_duration as u32)
        } else {
            seq![self.version] + u24_bytes(self.flags.0) + u64_bytes(self.fragment_duration)
        }
    }

    open spec fn spec_encodable(&self) -> bool {
        self.version <= 1
    }

    fn encoded_len(&self) -> (r: usize) {
        if self.version == 0 {
            8
        } else if self.version == 1 {
            12
        } else {
            0
        }
    }

    #[verifier::rlimit(40)]
    fn encode_into(&self, bytes: &mut [u8]) -> (r: Result<usize, Error>) {
        let ghost s0 = bytes@;
        if self.version == 0 {
            if bytes.len() < 8 {
                return Err(short_buffer(8, bytes.len()));
            }
            let p = put_u8(bytes, 0, self.version)?;
            let ghost mut acc = seq![self.version];
            let p = put_u24(bytes, p, self.flags.0)?;
            proof {
                lemma_splice_concat(s0, 0, acc, u24_bytes(self.flags.0));
                acc = acc + u24_bytes(self.flags.0);
            }
            let p = put_u32(bytes, p, self.fragment_duration as u32)?;
            proof {
                lemma_splice_concat(s0, 0, acc, u32_bytes(self.fragment_duration as u32));
                acc = acc + u32_bytes(self.fragment_duration as u32);
            }
            Ok(p)
        } else if self.version == 1 {
            if bytes.len() < 12 {
                return Err(short_buffer(12, bytes.len()));
            }
            let p = put_u8(bytes, 0, self.version)?;
            let ghost mut acc = seq![self.version];
            let p = put_u24(bytes, p, self.flags.0)?;
            proof {
                lemma_splice_concat(s0, 0, acc, u24_bytes(self.flags.0));
                acc = acc + u24_bytes(self.flags.0);
            }
            let p = put_u64(bytes, p, self.fragment_duration)?;
            proof {
                lemma_splice_concat(s0, 0, acc, u64_bytes(self.fragment_duration));
                acc = acc + u64_bytes(self.fragment_duration);
            }
            Ok(p)
        } else {
            Err(Error::in_box(ErrorKind::InvalidBoxVersion { reason: "0 or 1 in this specification", got: self.version }, BoxType::MEHD))
        }
    }
}

/// Decoding the encoding of a `mehd` box gives the box back (for version 0,
/// provided its 64-bit fields fit in 32 bits).
pub proof fn lemma_mehd_roundtrip(b: MehdBox)
    requires
        b.version <= 1,
        b.flags.0 < 0x100_0000,
        b.version == 0 ==> b.fragment_duration <= u32::MAX,
    ensures
        MehdBox::spec_accepts(b.spec_encode()),
        MehdBox::spec_decodes(b.spec_encode(), b),
{
    if b.version == 0 {
        assert(b.version == b.spec_encode()[0]) by {
            assert(b.spec_encode().subrange(0, 1) =~= seq![b.version]);
            assert(b.spec_encode()[0] == b.spec_encode().subrange(0, 1)[0]);
        }
        assert(b.flags.0 == be24(b.spec_encode(), 1)) by {
            assert(b.spec_encode().subrange(1, 4) =~= u24_bytes(b.flags.0));
            lemma_be24_in(b.spec_encode(), 1, b.flags.0);
        }
        assert(b.fragment_duration == be32(b.spec_encode(), 4) as u64) by {
            assert(b.spec_encode().subrange(4, 8) =~= u32_bytes(b.fragment_duration as u32));
            lemma_be32_in(b.spec_encode(), 4, b.fragment_duration as u32);
        }
    } else {
        assert(b.version == b.spec_encode()[0]) by {
            assert(b.spec_encode().subrange(0, 1) =~= seq![b.version]);
            assert(b.spec_encode()[0] == b.spec_encode().subrange(0, 1)[0]);
        }
        assert(b.flags.0 == be24(b.spec_encode(), 1)) by {
            assert(b.spec_encode().subrange(1, 4) =~= u24_bytes(b.flags.0));
            lemma_be24_in(b.spec_encode(), 1, b.flags.0);
        }
        assert(b.fragment_duration == be64(b.spec_encode(), 4)) by {
            assert(b.spec_encode().subrange(4, 12) =~= u64_bytes(b.fragment_duration));
            lemma_be64_in(b.spec_encode(), 4, b.fragment_duration);
        }
    }
}

/// Encoding the box decoded from a payload of exactly the length its version
/// needs, with zero reserved bytes, gives the payload back.
pub proof fn lemma_mehd_reencode(s: Seq<u8>, b: MehdBox)
    requires
        MehdBox::spec_decodes(s, b),
        s[0] == 0 ==> s.len() == 8,
        s[0] == 1 ==> s.len() == 12,
        s[0] <= 1,
    ensures
        b.spec_encode() == s,
{
    if s[0] == 0 {
        assert(s.subrange(0, 1) =~= seq![s[0]]);
        lemma_u24_bytes_of(s, 1);
        lemma_subrange_split(s, 0, 1, 4);
        lemma_u32_bytes_of(s, 4);
        lemma_subrange_split(s, 0, 4, 8);
        assert(s.subrange(0, 8) =~= s);
    } else {
        assert(s.subrange(0, 1) =~= seq![s[0]]);
        lemma_u24_bytes_of(s, 1);
        lemma_subrange_split(s, 0, 1, 4);
        lemma_u64_bytes_of(s, 4);
        lemma_subrange_split(s, 0, 4, 12);
        assert(s.subrange(0, 12) =~= s);
    }
}

/// The layout of a `mehd` payload: what an owned `mehd` box decoded from
/// `bytes` holds, field by field, read at fixed offsets.
pub proof fn lemma_mehd_box_layout(bytes: Seq<u8>, v: MehdBox)
    requires
        MehdBox::spec_decodes(bytes, v),
    ensures
        v.version == bytes[0],
        v.flags.0 == be24(bytes, 1),
        v.version == 0 ==> v.fragment_duration == be32(bytes, 4) as u64,
        v.version == 1 ==> v.fragment_duration == be64(bytes, 4),
{
}

} // verus!
