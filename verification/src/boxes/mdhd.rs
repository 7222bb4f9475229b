//! Media Header Box (`mdhd`): the timescale, duration and language of a track's media.
use vstd::prelude::*;

use crate::bytes::{be16, be24, be32, be64, u16_bytes, u24_bytes, u32_bytes, u64_bytes, lemma_u16_bytes_of, lemma_u24_bytes_of, lemma_u32_bytes_of, lemma_u64_bytes_of, lemma_subrange_split, lemma_be16_in, lemma_be24_in, lemma_be32_in, lemma_be64_in};
use crate::codec::{BoxCodec, BoxDecode, BoxEncode, short_buffer};
use crate::cursor::{put_u8, put_u16, put_u24, put_u32, put_u64, put_zeros, lemma_splice_concat, ReadCursor};
use crate::error::{Error, ErrorKind};
use crate::flags::{BoxFlags, MdhdFlags};
use crate::types::{BoxType, QuickTimeDateTime, LanguageCode, valid_packed_language};

verus! {

/// Media Header Box (`mdhd`).
#[derive(Debug, Clone, Copy)]
pub struct MdhdBox {
    /// Box version: 0 for 32-bit times and durations, 1 for 64-bit ones.
    pub version: u8,
    /// Box flags.
    pub flags: MdhdFlags,
    /// Creation time.
    pub creation_time: QuickTimeDateTime,
    /// Last modification time.
    pub modification_time: QuickTimeDateTime,
    /// Time units per second.
    pub timescale: u32,
    /// Duration in the timescale.
    pub duration: u64,
    /// Language of the media.
    pub language: LanguageCode,
}

impl BoxCodec for MdhdBox {
    open spec fn spec_boxtype(&self) -> BoxType {
        BoxType::MDHD
    }

    fn boxtype(&self) -> (r: BoxType) {
        BoxType::MDHD
    }
}

impl MdhdBox {
    /// The payloads of version 0 and version 1, whose language field holds three lower-case letters.
    pub open spec fn spec_valid(bytes: Seq<u8>) -> bool {
        ||| bytes.len() >= 24 && bytes[0] == 0 && valid_packed_language(be16(bytes, 20))
        ||| bytes.len() >= 36 && bytes[0] == 1 && valid_packed_language(be16(bytes, 32))
    }
}

impl<'de> BoxDecode<'de> for MdhdBox {
    open spec fn spec_accepts(bytes: Seq<u8>) -> bool {
        MdhdBox::spec_valid(bytes)
    }

    open spec fn spec_decodes(bytes: Seq<u8>, v: Self) -> bool {
        &&& v.version == bytes[0]
        &&& v.flags.0 == be24(bytes, 1)
        &&& v.version == 0 ==> v.creation_time.0 == be32(bytes, 4) as u64 && v.modification_time.0 == be32(bytes, 8) as u64 && v.timescale == be32(bytes, 12) && v.duration == be32(bytes, 16) as u64 && v.language.0 == be16(bytes, 20)
        &&& v.version == 1 ==> v.creation_time.0 == be64(bytes, 4) && v.modification_time.0 == be64(bytes, 12) && v.timescale == be32(bytes, 20) && v.duration == be64(bytes, 24) && v.language.0 == be16(bytes, 32)
    }

    fn decode(bytes: &'de [u8]) -> (r: Result<Self, Error>)
        ensures
            bytes@.len() >= 4 && bytes@[0] > 1 ==> r == Err::<Self, Error>(Error { kind: ErrorKind::InvalidBoxVersion { reason: "0 or 1 in this specification", got: bytes@[0] }, offset: None, box_type: Some(BoxType::MDHD) }),
    {
        let mut cur = ReadCursor::new(bytes);
        let version = cur.read_u8()?;
        let flags = BoxFlags(cur.read_u24_be()?);
        if version == 0 {
            let creation_time_0 = cur.read_u32_be()? as u64;
            let modification_time_0 = cur.read_u32_be()? as u64;
            let timescale_0 = cur.read_u32_be()?;
            let duration_0 = cur.read_u32_be()? as u64;
            let language_0 = cur.read_u16_be()?;
            cur.advance(2)?;
            let r = MdhdBox { version, flags, creation_time: QuickTimeDateTime(creation_time_0), modification_time: QuickTimeDateTime(modification_time_0), timescale: timescale_0, duration: duration_0, language: LanguageCode(language_0) };
            if LanguageCode::from_packed(r.language.0).is_none() {
                return Err(Error::in_box(ErrorKind::InvalidBoxField { field: "language", reason: "invalid packed language code" }, BoxType::MDHD));
            }
            Ok(r)
        } else if version == 1 {
            let creation_time_0 = cur.read_u64_be()?;
            let modification_time_0 = cur.read_u64_be()?;
            let timescale_0 = cur.read_u32_be()?;
            let duration_0 = cur.read_u64_be()?;
            let language_0 = cur.read_u16_be()?;
            cur.advance(2)?;
            let r = MdhdBox { version, flags, creation_time: QuickTimeDateTime(creation_time_0), modification_time: QuickTimeDateTime(modification_time_0), timescale: timescale_0, duration: duration_0, language: LanguageCode(language_0) };
            if LanguageCode::from_packed(r.language.0).is_none() {
                return Err(Error::in_box(ErrorKind::InvalidBoxField { field: "language", reason: "invalid packed language code" }, BoxType::MDHD));
            }
            Ok(r)
        } else {
            Err(Error::in_box(ErrorKind::InvalidBoxVersion { reason: "0 or 1 in this specification", got: version }, BoxType::MDHD))
        }
    }
}

impl BoxEncode for MdhdBox {
    open spec fn spec_encode(&self) -> Seq<u8> {
        if self.version == 0 {
            seq![self.version] + u24_bytes(self.flags.0) + u32_bytes(self.creation_time.0 as u32) + u32_bytes(self.modification_time.0 as u32) + u32_bytes(self.timescale) + u32_bytes(self.duration as u32) + u16_bytes(self.language.0) + Seq::new(2 as nat, |i: int| 0u8)
        } else {
            seq![self.version] + u24_bytes(self.flags.0) + u64_bytes(self.creation_time.0) + u64_bytes(self.modification_time.0) + u32_bytes(self.timescale) + u64_bytes(self.duration) + u16_bytes(self.language.0) + Seq::new(2 as nat, |i: int| 0u8)
        }
    }

    open spec fn spec_encodable(&self) -> bool {
        self.version <= 1
    }

    fn encoded_len(&self) -> (r: usize) {
        if self.version == 0 {
            24
        } else if self.version == 1 {
            36
        } else {
            0
        }
    }

    #[verifier::rlimit(40)]
    fn encode_into(&self, bytes: &mut [u8]) -> (r: Result<usize, Error>) {
        let ghost s0 = bytes@;
        if self.version == 0 {
            if bytes.len() < 24 {
                return Err(short_buffer(24, bytes.len()));
            }
            let p = put_u8(bytes, 0, self.version)?;
            let ghost mut acc = seq![self.version];
            let p = put_u24(bytes, p, self.flags.0)?;
            proof {
                lemma_splice_concat(s0, 0, acc, u24_bytes(self.flags.0));
                acc = acc + u24_bytes(self.flags.0);
            }
            let p = put_u32(bytes, p, self.creation_time.0 as u32)?;
            proof {
                lemma_splice_concat(s0, 0, acc, u32_bytes(self.creation_time.0 as u32));
                acc = acc + u32_bytes(self.creation_time.0 as u32);
            }
            let p = put_u32(bytes, p, self.modification_time.0 as u32)?;
            proof {
                lemma_splice_concat(s0, 0, acc, u32_bytes(self.modification_time.0 as u32));
                acc = acc + u32_bytes(self.modification_time.0 as u32);
            }
            let p = put_u32(bytes, p, self.timescale)?;
            proof {
                lemma_splice_concat(s0, 0, acc, u32_bytes(self.timescale));
                acc = acc + u32_bytes(self.timescale);
            }
            let p = put_u32(bytes, p, self.duration as u32)?;
            proof {
                lemma_splice_concat(s0, 0, acc, u32_bytes(self.duration as u32));
                acc = acc + u32_bytes(self.duration as u32);
            }
            let p = put_u16(bytes, p, self.language.0)?;
            proof {
                lemma_splice_concat(s0, 0, acc, u16_bytes(self.language.0));
                acc = acc + u16_bytes(self.language.0);
            }
            let p = put_zeros(bytes, p, 2)?;
            proof {
                lemma_splice_concat(s0, 0, acc, Seq::new(2 as nat, |i: int| 0u8));
                acc = acc + Seq::new(2 as nat, |i: int| 0u8);
            }
            Ok(p)
        } else if self.version == 1 {
            if bytes.len() < 36 {
                return Err(short_buffer(36, bytes.len()));
            }
            let p = put_u8(bytes, 0, self.version)?;
            let ghost mut acc = seq![self.version];
            let p = put_u24(bytes, p, self.flags.0)?;
            proof {
                lemma_splice_concat(s0, 0, acc, u24_bytes(self.flags.0));
                acc = acc + u24_bytes(self.flags.0);
            }
            let p = put_u64(bytes, p, self.creation_time.0)?;
            proof {
                lemma_splice_concat(s0, 0, acc, u64_bytes(self.creation_time.0));
                acc = acc + u64_bytes(self.creation_time.0);
            }
            let p = put_u64(bytes, p, self.modification_time.0)?;
            proof {
                lemma_splice_concat(s0, 0, acc, u64_bytes(self.modification_time.0));
                acc = acc + u64_bytes(self.modification_time.0);
            }
            let p = put_u32(bytes, p, self.timescale)?;
            proof {
                lemma_splice_concat(s0, 0, acc, u32_bytes(self.timescale));
                acc = acc + u32_bytes(self.timescale);
            }
            let p = put_u64(bytes, p, self.duration)?;
            proof {
                lemma_splice_concat(s0, 0, acc, u64_bytes(self.duration));
                acc = acc + u64_bytes(self.duration);
            }
            let p = put_u16(bytes, p, self.language.0)?;
            proof {
                lemma_splice_concat(s0, 0, acc, u16_bytes(self.language.0));
                acc = acc + u16_bytes(self.language.0);
            }
            let p = put_zeros(bytes, p, 2)?;
            proof {
                lemma_splice_concat(s0, 0, acc, Seq::new(2 as nat, |i: int| 0u8));
                acc = acc + Seq::new(2 as nat, |i: int| 0u8);
            }
            Ok(p)
        } else {
            Err(Error::in_box(ErrorKind::InvalidBoxVersion { reason: "0 or 1 in this specification", got: self.version }, BoxType::MDHD))
        }
    }
}

impl Default for MdhdBox {
    fn default() -> (r: MdhdBox)
        ensures
            r.version == 0,
            r.flags.0 == 0,
            r.creation_time.0 == 0,
            r.modification_time.0 == 0,
            r.timescale == 0,
            r.duration == 0,
            r.language.0 == 0x55C4,
    {
        MdhdBox { version: 0, flags: BoxFlags(0), creation_time: QuickTimeDateTime(0), modification_time: QuickTimeDateTime(0), timescale: 0, duration: 0, language: LanguageCode::undetermined() }
    }
}

/// Decoding the encoding of a `mdhd` box gives the box back (for version 0,
/// provided its 64-bit fields fit in 32 bits).
#[verifier::rlimit(100)]
#[verifier::spinoff_prover]
pub proof fn lemma_mdhd_roundtrip(b: MdhdBox)
    requires
        b.version <= 1,
        b.flags.0 < 0x100_0000,
        b.version == 0 ==> b.creation_time.0 <= u32::MAX && b.modification_time.0 <= u32::MAX && b.duration <= u32::MAX,
        valid_packed_language(b.language.0),
    ensures
        MdhdBox::spec_accepts(b.spec_encode()),
        MdhdBox::spec_decodes(b.spec_encode(), b),
{
    if b.version == 0 {
        assert(b.version == b.spec_encode()[0]) by {
            assert(b.spec_encode().subrange(0, 1) =~= seq![b.version]);
            assert(b.spec_encode()[0] == b.spec_encode().subrange(0, 1)[0]);
        }
        assert(b.flags.0 == be24(b.spec_encode(), 1)) by {
            assert(b.spec_encode().subrange(1, 4) =~= u24_bytes(b.flags.0));
            lemma_be24_in(b.spec_encode(), 1, b.flags.0);
        }
        assert(b.creation_time.0 == be32(b.spec_encode(), 4) as u64) by {
            assert(b.spec_encode().subrange(4, 8) =~= u32_bytes(b.creation_time.0 as u32));
            lemma_be32_in(b.spec_encode(), 4, b.creation_time.0 as u32);
        }
        assert(b.modification_time.0 == be32(b.spec_encode(), 8) as u64) by {
            assert(b.spec_encode().subrange(8, 12) =~= u32_bytes(b.modification_time.0 as u32));
            lemma_be32_in(b.spec_encode(), 8, b.modification_time.0 as u32);
        }
        assert(b.timescale == be32(b.spec_encode(), 12)) by {
            assert(b.spec_encode().subrange(12, 16) =~= u32_bytes(b.timescale));
            lemma_be32_in(b.spec_encode(), 12, b.timescale);
        }
        assert(b.duration == be32(b.spec_encode(), 16) as u64) by {
            assert(b.spec_encode().subrange(16, 20) =~= u32_bytes(b.duration as u32));
            lemma_be32_in(b.spec_encode(), 16, b.duration as u32);
        }
        assert(b.language.0 == be16(b.spec_encode(), 20)) by {
            assert(b.spec_encode().subrange(20, 22) =~= u16_bytes(b.language.0));
            lemma_be16_in(b.spec_encode(), 20, b.language.0);
        }
    } else {
        assert(b.version == b.spec_encode()[0]) by {
            assert(b.spec_encode().subrange(0, 1) =~= seq![b.version]);
            assert(b.spec_encode()[0] == b.spec_encode().subrange(0, 1)[0]);
        }
        assert(b.flags.0 == be24(b.spec_encode(), 1)) by {
            assert(b.spec_encode().subrange(1, 4) =~= u24_bytes(b.flags.0));
            lemma_be24_in(b.spec_encode(), 1, b.flags.0);
        }
        assert(b.creation_time.0 == be64(b.spec_encode(), 4)) by {
            assert(b.spec_encode().subrange(4, 12) =~= u64_bytes(b.creation_time.0));
            lemma_be64_in(b.spec_encode(), 4, b.creation_time.0);
        }
        assert(b.modification_time.0 == be64(b.spec_encode(), 12)) by {
            assert(b.spec_encode().subrange(12, 20) =~= u64_bytes(b.modification_time.0));
            lemma_be64_in(b.spec_encode(), 12, b.modification_time.0);
        }
        assert(b.timescale == be32(b.spec_encode(), 20)) by {
            assert(b.spec_encode().subrange(20, 24) =~= u32_bytes(b.timescale));
            lemma_be32_in(b.spec_encode(), 20, b.timescale);
        }
        assert(b.duration == be64(b.spec_encode(), 24)) by {
            assert(b.spec_encode().subrange(24, 32) =~= u64_bytes(b.duration));
            lemma_be64_in(b.spec_encode(), 24, b.duration);
        }
        assert(b.language.0 == be16(b.spec_encode(), 32)) by {
            assert(b.spec_encode().subrange(32, 34) =~= u16_bytes(b.language.0));
            lemma_be16_in(b.spec_encode(), 32, b.language.0);
        }
    }
}

/// Encoding the box decoded from a payload of exactly the length its version
/// needs, with zero reserved bytes, gives the payload back.
pub proof fn lemma_mdhd_reencode(s: Seq<u8>, b: MdhdBox)
    requires
        MdhdBox::spec_decodes(s, b),
        s[0] == 0 ==> s.len() == 24 && s.subrange(22, 24) == Seq::new(2 as nat, |i: int| 0u8),
        s[0] == 1 ==> s.len() == 36 && s.subrange(34, 36) == Seq::new(2 as nat, |i: int| 0u8),
        s[0] <= 1,
    ensures
        b.spec_encode() == s,
{
    if s[0] == 0 {
        assert(s.subrange(0, 1) =~= seq![s[0]]);
        lemma_u24_bytes_of(s, 1);
        lemma_subrange_split(s, 0, 1, 4);
        lemma_u32_bytes_of(s, 4);
        lemma_subrange_split(s, 0, 4, 8);
        lemma_u32_bytes_of(s, 8);
        lemma_subrange_split(s, 0, 8, 12);
        lemma_u32_bytes_of(s, 12);
        lemma_subrange_split(s, 0, 12, 16);
        lemma_u32_bytes_of(s, 16);
        lemma_subrange_split(s, 0, 16, 20);
        lemma_u16_bytes_of(s, 20);
        lemma_subrange_split(s, 0, 20, 22);
        lemma_subrange_split(s, 0, 22, 24);
        assert(s.subrange(0, 24) =~= s);
    } else {
        assert(s.subrange(0, 1) =~= seq![s[0]]);
        lemma_u24_bytes_of(s, 1);
        lemma_subrange_split(s, 0, 1, 4);
        lemma_u64_bytes_of(s, 4);
        lemma_subrange_split(s, 0, 4, 12);
        lemma_u64_bytes_of(s, 12);
        lemma_subrange_split(s, 0, 12, 20);
        lemma_u32_bytes_of(s, 20);
        lemma_subrange_split(s, 0, 20, 24);
        lemma_u64_bytes_of(s, 24);
        lemma_subrange_split(s, 0, 24, 32);
        lemma_u16_bytes_of(s, 32);
        lemma_subrange_split(s, 0, 32, 34);
        lemma_subrange_split(s, 0, 34, 36);
        assert(s.subrange(0, 36) =~= s);
    }
}

/// The layout of a `mdhd` payload: what an owned `mdhd` box decoded from
/// `bytes` holds, field by field, read at fixed offsets.
pub proof fn lemma_mdhd_box_layout(bytes: Seq<u8>, v: MdhdBox)
    requires
        MdhdBox::spec_decodes(bytes, v),
    ensures
        v.version == bytes[0],
        v.flags.0 == be24(bytes, 1),
        v.version == 0 ==> v.creation_time.0 == be32(bytes, 4) as u64 && v.modification_time.0 == be32(bytes, 8) as u64 && v.timescale == be32(bytes, 12) && v.duration == be32(bytes, 16) as u64 && v.language.0 == be16(bytes, 20),
        v.version == 1 ==> v.creation_time.0 == be64(bytes, 4) && v.modification_time.0 == be64(bytes, 12) && v.timescale == be32(bytes, 20) && v.duration == be64(bytes, 24) && v.language.0 == be16(bytes, 32),
{
}

} // verus!
