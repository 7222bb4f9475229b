//! Movie Header Box (`mvhd`): the timescale, duration and playback defaults of a movie.
use vstd::prelude::*;

use crate::bytes::{be16, be24, be32, be64, u16_bytes, u24_bytes, u32_bytes, u64_bytes, lemma_u16_bytes_of, lemma_u24_bytes_of, lemma_u32_bytes_of, lemma_u64_bytes_of, lemma_sign_casts, lemma_subrange_split, lemma_be16_in, lemma_be24_in, lemma_be32_in, lemma_be64_in};
use crate::codec::{BoxCodec, BoxDecode, BoxEncode, short_buffer};
use crate::cursor::{put_u8, put_u16, put_u24, put_u32, put_u64, put_zeros, lemma_splice_concat, ReadCursor};
use crate::error::{Error, ErrorKind};
use crate::flags::{BoxFlags, MvhdFlags};
use crate::types::{BoxType, I8F8, I16F16, Matrix, QuickTimeDateTime};

verus! {

/// Movie Header Box (`mvhd`).
#[derive(Debug, Clone, Copy)]
pub struct MvhdBox {
    /// Box version: 0 for 32-bit times and durations, 1 for 64-bit ones.
    pub version: u8,
    /// Box flags.
    pub flags: MvhdFlags,
    /// Creation time.
    pub creation_time: QuickTimeDateTime,
    /// Last modification time.
    pub modification_time: QuickTimeDateTime,
    /// Time units per second.
    pub timescale: u32,
    /// Duration of the longest track, in the timescale.
    pub duration: u64,
    /// Preferred playback rate (16.16, 1.0 is normal).
    pub rate: I16F16,
    /// Preferred playback volume (8.8, 1.0 is full).
    pub volume: I8F8,
    /// Transformation matrix of the video.
    pub matrix: Matrix,
    /// The track identifier to use for the next track added.
    pub next_track_id: u32,
}

impl BoxCodec for MvhdBox {
    open spec fn spec_boxtype(&self) -> BoxType {
        BoxType::MVHD
    }

    fn boxtype(&self) -> (r: BoxType) {
        BoxType::MVHD
    }
}

impl MvhdBox {
    /// The payloads of version 0 and version 1.
    pub open spec fn spec_valid(bytes: Seq<u8>) -> bool {
        ||| bytes.len() >= 100 && bytes[0] == 0 && true
        ||| bytes.len() >= 112 && bytes[0] == 1 && true
    }
}

impl<'de> BoxDecode<'de> for MvhdBox {
    open spec fn spec_accepts(bytes: Seq<u8>) -> bool {
        MvhdBox::spec_valid(bytes)
    }

    open spec fn spec_decodes(bytes: Seq<u8>, v: Self) -> bool {
        &&& v.version == bytes[0]
        &&& v.flags.0 == be24(bytes, 1)
        &&& v.version == 0 ==> v.creation_time.0 == be32(bytes, 4) as u64 && v.modification_time.0 == be32(bytes, 8) as u64 && v.timescale == be32(bytes, 12) && v.duration == be32(bytes, 16) as u64 && v.rate.0 == be32(bytes, 20) as i32 && v.volume.0 == be16(bytes, 24) as i16 && v.matrix.0[0] == be32(bytes, 36) as i32 && v.matrix.0[1] == be32(bytes, 40) as i32 && v.matrix.0[2] == be32(bytes, 44) as i32 && v.matrix.0[3] == be32(bytes, 48) as i32 && v.matrix.0[4] == be32(bytes, 52) as i32 && v.matrix.0[5] == be32(bytes, 56) as i32 && v.matrix.0[6] == be32(bytes, 60) as i32 && v.matrix.0[7] == be32(bytes, 64) as i32 && v.matrix.0[8] == be32(bytes, 68) as i32 && v.next_track_id == be32(bytes, 96)
        &&& v.version == 1 ==> v.creation_time.0 == be64(bytes, 4) && v.modification_time.0 == be64(bytes, 12) && v.timescale == be32(bytes, 20) && v.duration == be64(bytes, 24) && v.rate.0 == be32(bytes, 32) as i32 && v.volume.0 == be16(bytes, 36) as i16 && v.matrix.0[0] == be32(bytes, 48) as i32 && v.matrix.0[1] == be32(bytes, 52) as i32 && v.matrix.0[2] == be32(bytes, 56) as i32 && v.matrix.0[3] == be32(bytes, 60) as i32 && v.matrix.0[4] == be32(bytes, 64) as i32 && v.matrix.0[5] == be32(bytes, 68) as i32 && v.matrix.0[6] == be32(bytes, 72) as i32 && v.matrix.0[7] == be32(bytes, 76) as i32 && v.matrix.0[8] == be32(bytes, 80) as i32 && v.next_track_id == be32(bytes, 108)
    }

    fn decode(bytes: &'de [u8]) -> (r: Result<Self, Error>)
        ensures
            bytes@.len() >= 4 && bytes@[0] > 1 ==> r == Err::<Self, Error>(Error { kind: ErrorKind::InvalidBoxVersion { reason: "0 or 1 in this specification", got: bytes@[0] }, offset: None, box_type: Some(BoxType::MVHD) }),
    {
        let mut cur = ReadCursor::new(bytes);
        let version = cur.read_u8()?;
        let flags = BoxFlags(cur.read_u24_be()?);
        if version == 0 {
            let creation_time_0 = cur.read_u32_be()? as u64;
            let modification_time_0 = cur.read_u32_be()? as u64;
            let timescale_0 = cur.read_u32_be()?;
            let duration_0 = cur.read_u32_be()? as u64;
            let rate_0 = cur.read_i32_be()?;
            let volume_0 = cur.read_i16_be()?;
            cur.advance(10)?;
            let matrix_0 = cur.read_i32_be()?;
            let matrix_1 = cur.read_i32_be()?;
            let matrix_2 = cur.read_i32_be()?;
            let matrix_3 = cur.read_i32_be()?;
            let matrix_4 = cur.read_i32_be()?;
            let matrix_5 = cur.read_i32_be()?;
            let matrix_6 = cur.read_i32_be()?;
            let matrix_7 = cur.read_i32_be()?;
            let matrix_8 = cur.read_i32_be()?;
            cur.advance(24)?;
            let next_track_id_0 = cur.read_u32_be()?;
            let r = MvhdBox { version, flags, creation_time: QuickTimeDateTime(creation_time_0), modification_time: QuickTimeDateTime(modification_time_0), timescale: timescale_0, duration: duration_0, rate: I16F16(rate_0), volume: I8F8(volume_0), matrix: Matrix([matrix_0, matrix_1, matrix_2, matrix_3, matrix_4, matrix_5, matrix_6, matrix_7, matrix_8]), next_track_id: next_track_id_0 };
            
            Ok(r)
        } else if version == 1 {
            let creation_time_0 = cur.read_u64_be()?;
            let modification_time_0 = cur.read_u64_be()?;
            let timescale_0 = cur.read_u32_be()?;
            let duration_0 = cur.read_u64_be()?;
            let rate_0 = cur.read_i32_be()?;
            let volume_0 = cur.read_i16_be()?;
            cur.advance(10)?;
            let matrix_0 = cur.read_i32_be()?;
            let matrix_1 = cur.read_i32_be()?;
            let matrix_2 = cur.read_i32_be()?;
            let matrix_3 = cur.read_i32_be()?;
            let matrix_4 = cur.read_i32_be()?;
            let matrix_5 = cur.read_i32_be()?;
            let matrix_6 = cur.read_i32_be()?;
            let matrix_7 = cur.read_i32_be()?;
            let matrix_8 = cur.read_i32_be()?;
            cur.advance(24)?;
            let next_track_id_0 = cur.read_u32_be()?;
            let r = MvhdBox { version, flags, creation_time: QuickTimeDateTime(creation_time_0), modification_time: QuickTimeDateTime(modification_time_0), timescale: timescale_0, duration: duration_0, rate: I16F16(rate_0), volume: I8F8(volume_0), matrix: Matrix([matrix_0, matrix_1, matrix_2, matrix_3, matrix_4, matrix_5, matrix_6, matrix_7, matrix_8]), next_track_id: next_track_id_0 };
            
            Ok(r)
        } else {
            Err(Error::in_box(ErrorKind::InvalidBoxVersion { reason: "0 or 1 in this specification", got: version }, BoxType::MVHD))
        }
    }
}

impl BoxEncode for MvhdBox {
    open spec fn spec_encode(&self) -> Seq<u8> {
        if self.version == 0 {
            seq![self.version] + u24_bytes(self.flags.0) + u32_bytes(self.creation_time.0 as u32) + u32_bytes(self.modification_time.0 as u32) + u32_bytes(self.timescale) + u32_bytes(self.duration as u32) + u32_bytes(self.rate.0 as u32) + u16_bytes(self.volume.0 as u16) + Seq::new(10 as nat, |i: int| 0u8) + u32_bytes(self.matrix.0[0] as u32) + u32_bytes(self.matrix.0[1] as u32) + u32_bytes(self.matrix.0[2] as u32) + u32_bytes(self.matrix.0[3] as u32) + u32_bytes(self.matrix.0[4] as u32) + u32_bytes(self.matrix.0[5] as u32) + u32_bytes(self.matrix.0[6] as u32) + u32_bytes(self.matrix.0[7] as u32) + u32_bytes(self.matrix.0[8] as u32) + Seq::new(24 as nat, |i: int| 0u8) + u32_bytes(self.next_track_id)
        } else {
            seq![self.version] + u24_bytes(self.flags.0) + u64_bytes(self.creation_time.0) + u64_bytes(self.modification_time.0) + u32_bytes(self.timescale) + u64_bytes(self.duration) + u32_bytes(self.rate.0 as u32) + u16_bytes(self.volume.0 as u16) + Seq::new(10 as nat, |i: int| 0u8) + u32_bytes(self.matrix.0[0] as u32) + u32_bytes(self.matrix.0[1] as u32) + u32_bytes(self.matrix.0[2] as u32) + u32_bytes(self.matrix.0[3] as u32) + u32_bytes(self.matrix.0[4] as u32) + u32_bytes(self.matrix.0[5] as u32) + u32_bytes(self.matrix.0[6] as u32) + u32_bytes(self.matrix.0[7] as u32) + u32_bytes(self.matrix.0[8] as u32) + Seq::new(24 as nat, |i: int| 0u8) + u32_bytes(self.next_track_id)
        }
    }

    open spec fn spec_encodable(&self) -> bool {
        self.version <= 1 && (self.version == 0 ==> self.creation_time.0 <= u32::MAX && self.modification_time.0 <= u32::MAX && self.duration <= u32::MAX)
    }

    #[verifier::rlimit(60)]
    fn encoded_len(&self) -> (r: usize) {
        if self.version == 0 {
            100
        } else if self.version == 1 {
            112
        } else {
            0
        }
    }

    #[verifier::rlimit(40)]
    fn encode_into(&self, bytes: &mut [u8]) -> (r: Result<usize, Error>) {
        let ghost s0 = bytes@;
        if self.version == 0 {
            if self.creation_time.0 > 0xFFFF_FFFF || self.modification_time.0 > 0xFFFF_FFFF || self.duration > 0xFFFF_FFFF {
                return Err(Error::in_box(ErrorKind::Overflow, BoxType::MVHD));
            }
            if bytes.len() < 100 {
                return Err(short_buffer(100, bytes.len()));
            }
            let p = put_u8(bytes, 0, self.version)?;
            let ghost mut acc = seq![self.version];
            let p = put_u24(bytes, p, self.flags.0)?;
            proof {
                lemma_splice_concat(s0, 0, acc, u24_bytes(self.flags.0));
                acc = acc + u24_bytes(self.flags.0);
            }
            let p = put_u32(bytes, p, self.creation_time.0 as u32)?;
            proof {
                lemma_splice_concat(s0, 0, acc, u32_bytes(self.creation_time.0 as u32));
                acc = acc + u32_bytes(self.creation_time.0 as u32);
            }
            let p = put_u32(bytes, p, self.modification_time.0 as u32)?;
            proof {
                lemma_splice_concat(s0, 0, acc, u32_bytes(self.modification_time.0 as u32));
                acc = acc + u32_bytes(self.modification_time.0 as u32);
            }
            let p = put_u32(bytes, p, self.timescale)?;
            proof {
                lemma_splice_concat(s0, 0, acc, u32_bytes(self.timescale));
                acc = acc + u32_bytes(self.timescale);
            }
            let p = put_u32(bytes, p, self.duration as u32)?;
            proof {
                lemma_splice_concat(s0, 0, acc, u32_bytes(self.duration as u32));
                acc = acc + u32_bytes(self.duration as u32);
            }
            let p = put_u32(bytes, p, self.rate.0 as u32)?;
            proof {
                lemma_splice_concat(s0, 0, acc, u32_bytes(self.rate.0 as u32));
                acc = acc + u32_bytes(self.rate.0 as u32);
            }
            let p = put_u16(bytes, p, self.volume.0 as u16)?;
            proof {
                lemma_splice_concat(s0, 0, acc, u16_bytes(self.volume.0 as u16));
                acc = acc + u16_bytes(self.volume.0 as u16);
            }
            let p = put_zeros(bytes, p, 10)?;
            proof {
                lemma_splice_concat(s0, 0, acc, Seq::new(10 as nat, |i: int| 0u8));
                acc = acc + Seq::new(10 as nat, |i: int| 0u8);
            }
            let p = put_u32(bytes, p, self.matrix.0[0] as u32)?;
            proof {
                lemma_splice_concat(s0, 0, acc, u32_bytes(self.matrix.0[0] as u32));
                acc = acc + u32_bytes(self.matrix.0[0] as u32);
            }
            let p = put_u32(bytes, p, self.matrix.0[1] as u32)?;
            proof {
                lemma_splice_concat(s0, 0, acc, u32_bytes(self.matrix.0[1] as u32));
                acc = acc + u32_bytes(self.matrix.0[1] as u32);
            }
            let p = put_u32(bytes, p, self.matrix.0[2] as u32)?;
            proof {
                lemma_splice_concat(s0, 0, acc, u32_bytes(self.matrix.0[2] as u32));
                acc = acc + u32_bytes(self.matrix.0[2] as u32);
            }
            let p = put_u32(bytes, p, self.matrix.0[3] as u32)?;
            proof {
                lemma_splice_concat(s0, 0, acc, u32_bytes(self.matrix.0[3] as u32));
                acc = acc + u32_bytes(self.matrix.0[3] as u32);
            }
            let p = put_u32(bytes, p, self.matrix.0[4] as u32)?;
            proof {
                lemma_splice_concat(s0, 0, acc, u32_bytes(self.matrix.0[4] as u32));
                acc = acc + u32_bytes(self.matrix.0[4] as u32);
            }
            let p = put_u32(bytes, p, self.matrix.0[5] as u32)?;
            proof {
                lemma_splice_concat(s0, 0, acc, u32_bytes(self.matrix.0[5] as u32));
                acc = acc + u32_bytes(self.matrix.0[5] as u32);
            }
            let p = put_u32(bytes, p, self.matrix.0[6] as u32)?;
            proof {
                lemma_splice_concat(s0, 0, acc, u32_bytes(self.matrix.0[6] as u32));
                acc = acc + u32_bytes(self.matrix.0[6] as u32);
            }
            let p = put_u32(bytes, p, self.matrix.0[7] as u32)?;
            proof {
                lemma_splice_concat(s0, 0, acc, u32_bytes(self.matrix.0[7] as u32));
                acc = acc + u32_bytes(self.matrix.0[7] as u32);
            }
            let p = put_u32(bytes, p, self.matrix.0[8] as u32)?;
            proof {
                lemma_splice_concat(s0, 0, acc, u32_bytes(self.matrix.0[8] as u32));
                acc = acc + u32_bytes(self.matrix.0[8] as u32);
            }
            let p = put_zeros(bytes, p, 24)?;
            proof {
                lemma_splice_concat(s0, 0, acc, Seq::new(24 as nat, |i: int| 0u8));
                acc = acc + Seq::new(24 as nat, |i: int| 0u8);
            }
            let p = put_u32(bytes, p, self.next_track_id)?;
            proof {
                lemma_splice_concat(s0, 0, acc, u32_bytes(self.next_track_id));
                acc = acc + u32_bytes(self.next_track_id);
            }
            Ok(p)
        } else if self.version == 1 {
            if bytes.len() < 112 {
                return Err(short_buffer(112, bytes.len()));
            }
            let p = put_u8(bytes, 0, self.version)?;
            let ghost mut acc = seq![self.version];
            let p = put_u24(bytes, p, self.flags.0)?;
            proof {
                lemma_splice_concat(s0, 0, acc, u24_bytes(self.flags.0));
                acc = acc + u24_bytes(self.flags.0);
            }
            let p = put_u64(bytes, p, self.creation_time.0)?;
            proof {
                lemma_splice_concat(s0, 0, acc, u64_bytes(self.creation_time.0));
                acc = acc + u64_bytes(self.creation_time.0);
            }
            let p = put_u64(bytes, p, self.modification_time.0)?;
            proof {
                lemma_splice_concat(s0, 0, acc, u64_bytes(self.modification_time.0));
                acc = acc + u64_bytes(self.modification_time.0);
            }
            let p = put_u32(bytes, p, self.timescale)?;
            proof {
                lemma_splice_concat(s0, 0, acc, u32_bytes(self.timescale));
                acc = acc + u32_bytes(self.timescale);
            }
            let p = put_u64(bytes, p, self.duration)?;
            proof {
                lemma_splice_concat(s0, 0, acc, u64_bytes(self.duration));
                acc = acc + u64_bytes(self.duration);
            }
            let p = put_u32(bytes, p, self.rate.0 as u32)?;
            proof {
                lemma_splice_concat(s0, 0, acc, u32_bytes(self.rate.0 as u32));
                acc = acc + u32_bytes(self.rate.0 as u32);
            }
            let p = put_u16(bytes, p, self.volume.0 as u16)?;
            proof {
                lemma_splice_concat(s0, 0, acc, u16_bytes(self.volume.0 as u16));
                acc = acc + u16_bytes(self.volume.0 as u16);
            }
            let p = put_zeros(bytes, p, 10)?;
            proof {
                lemma_splice_concat(s0, 0, acc, Seq::new(10 as nat, |i: int| 0u8));
                acc = acc + Seq::new(10 as nat, |i: int| 0u8);
            }
            let p = put_u32(bytes, p, self.matrix.0[0] as u32)?;
            proof {
                lemma_splice_concat(s0, 0, acc, u32_bytes(self.matrix.0[0] as u32));
                acc = acc + u32_bytes(self.matrix.0[0] as u32);
            }
            let p = put_u32(bytes, p, self.matrix.0[1] as u32)?;
            proof {
                lemma_splice_concat(s0, 0, acc, u32_bytes(self.matrix.0[1] as u32));
                acc = acc + u32_bytes(self.matrix.0[1] as u32);
            }
            let p = put_u32(bytes, p, self.matrix.0[2] as u32)?;
            proof {
                lemma_splice_concat(s0, 0, acc, u32_bytes(self.matrix.0[2] as u32));
                acc = acc + u32_bytes(self.matrix.0[2] as u32);
            }
            let p = put_u32(bytes, p, self.matrix.0[3] as u32)?;
            proof {
                lemma_splice_concat(s0, 0, acc, u32_bytes(self.matrix.0[3] as u32));
                acc = acc + u32_bytes(self.matrix.0[3] as u32);
            }
            let p = put_u32(bytes, p, self.matrix.0[4] as u32)?;
            proof {
                lemma_splice_concat(s0, 0, acc, u32_bytes(self.matrix.0[4] as u32));
                acc = acc + u32_bytes(self.matrix.0[4] as u32);
            }
            let p = put_u32(bytes, p, self.matrix.0[5] as u32)?;
            proof {
                lemma_splice_concat(s0, 0, acc, u32_bytes(self.matrix.0[5] as u32));
                acc = acc + u32_bytes(self.matrix.0[5] as u32);
            }
            let p = put_u32(bytes, p, self.matrix.0[6] as u32)?;
            proof {
                lemma_splice_concat(s0, 0, acc, u32_bytes(self.matrix.0[6] as u32));
                acc = acc + u32_bytes(self.matrix.0[6] as u32);
            }
            let p = put_u32(bytes, p, self.matrix.0[7] as u32)?;
            proof {
                lemma_splice_concat(s0, 0, acc, u32_bytes(self.matrix.0[7] as u32));
                acc = acc + u32_bytes(self.matrix.0[7] as u32);
            }
            let p = put_u32(bytes, p, self.matrix.0[8] as u32)?;
            proof {
                lemma_splice_concat(s0, 0, acc, u32_bytes(self.matrix.0[8] as u32));
                acc = acc + u32_bytes(self.matrix.0[8] as u32);
            }
            let p = put_zeros(bytes, p, 24)?;
            proof {
                lemma_splice_concat(s0, 0, acc, Seq::new(24 as nat, |i: int| 0u8));
                acc = acc + Seq::new(24 as nat, |i: int| 0u8);
            }
            let p = put_u32(bytes, p, self.next_track_id)?;
            proof {
                lemma_splice_concat(s0, 0, acc, u32_bytes(self.next_track_id));
                acc = acc + u32_bytes(self.next_track_id);
            }
            Ok(p)
        } else {
            Err(Error::in_box(ErrorKind::InvalidBoxVersion { reason: "0 or 1 in this specification", got: self.version }, BoxType::MVHD))
        }
    }
}

/// Decoding the encoding of a `mvhd` box gives the box back (for version 0,
/// provided its 64-bit fields fit in 32 bits).
#[verifier::rlimit(100)]
#[verifier::spinoff_prover]
pub proof fn lemma_mvhd_roundtrip(b: MvhdBox)
    requires
        b.version <= 1,
        b.flags.0 < 0x100_0000,
        b.version == 0 ==> b.creation_time.0 <= u32::MAX && b.modification_time.0 <= u32::MAX && b.duration <= u32::MAX,
    ensures
        MvhdBox::spec_accepts(b.spec_encode()),
        MvhdBox::spec_decodes(b.spec_encode(), b),
{
    if b.version == 0 {
        assert(b.version == b.spec_encode()[0]) by {
            assert(b.spec_encode().subrange(0, 1) =~= seq![b.version]);
            assert(b.spec_encode()[0] == b.spec_encode().subrange(0, 1)[0]);
        }
        assert(b.flags.0 == be24(b.spec_encode(), 1)) by {
            assert(b.spec_encode().subrange(1, 4) =~= u24_bytes(b.flags.0));
            lemma_be24_in(b.spec_encode(), 1, b.flags.0);
        }
        assert(b.creation_time.0 == be32(b.spec_encode(), 4) as u64) by {
            assert(b.spec_encode().subrange(4, 8) =~= u32_bytes(b.creation_time.0 as u32));
            lemma_be32_in(b.spec_encode(), 4, b.creation_time.0 as u32);
        }
        assert(b.modification_time.0 == be32(b.spec_encode(), 8) as u64) by {
            assert(b.spec_encode().subrange(8, 12) =~= u32_bytes(b.modification_time.0 as u32));
            lemma_be32_in(b.spec_encode(), 8, b.modification_time.0 as u32);
        }
        assert(b.timescale == be32(b.spec_encode(), 12)) by {
            assert(b.spec_encode().subrange(12, 16) =~= u32_bytes(b.timescale));
            lemma_be32_in(b.spec_encode(), 12, b.timescale);
        }
        assert(b.duration == be32(b.spec_encode(), 16) as u64) by {
            assert(b.spec_encode().subrange(16, 20) =~= u32_bytes(b.duration as u32));
            lemma_be32_in(b.spec_encode(), 16, b.duration as u32);
        }
        assert(b.rate.0 == be32(b.spec_encode(), 20) as i32) by {
            assert(b.spec_encode().subrange(20, 24) =~= u32_bytes(b.rate.0 as u32));
            lemma_be32_in(b.spec_encode(), 20, b.rate.0 as u32);
            lemma_sign_casts(0, 0, b.rate.0, 0, 0, 0, 0, 0);
        }
        assert(b.volume.0 == be16(b.spec_encode(), 24) as i16) by {
            assert(b.spec_encode().subrange(24, 26) =~= u16_bytes(b.volume.0 as u16));
            lemma_be16_in(b.spec_encode(), 24, b.volume.0 as u16);
            lemma_sign_casts(0, b.volume.0, 0, 0, 0, 0, 0, 0);
        }
        assert(b.matrix.0[0] == be32(b.spec_encode(), 36) as i32) by {
            assert(b.spec_encode().subrange(36, 40) =~= u32_bytes(b.matrix.0[0] as u32));
            lemma_be32_in(b.spec_encode(), 36, b.matrix.0[0] as u32);
            lemma_sign_casts(0, 0, b.matrix.0[0], 0, 0, 0, 0, 0);
        }
        assert(b.matrix.0[1] == be32(b.spec_encode(), 40) as i32) by {
            assert(b.spec_encode().subrange(40, 44) =~= u32_bytes(b.matrix.0[1] as u32));
            lemma_be32_in(b.spec_encode(), 40, b.matrix.0[1] as u32);
            lemma_sign_casts(0, 0, b.matrix.0[1], 0, 0, 0, 0, 0);
        }
        assert(b.matrix.0[2] == be32(b.spec_encode(), 44) as i32) by {
            assert(b.spec_encode().subrange(44, 48) =~= u32_bytes(b.matrix.0[2] as u32));
            lemma_be32_in(b.spec_encode(), 44, b.matrix.0[2] as u32);
            lemma_sign_casts(0, 0, b.matrix.0[2], 0, 0, 0, 0, 0);
        }
        assert(b.matrix.0[3] == be32(b.spec_encode(), 48) as i32) by {
            assert(b.spec_encode().subrange(48, 52) =~= u32_bytes(b.matrix.0[3] as u32));
            lemma_be32_in(b.spec_encode(), 48, b.matrix.0[3] as u32);
            lemma_sign_casts(0, 0, b.matrix.0[3], 0, 0, 0, 0, 0);
        }
        assert(b.matrix.0[4] == be32(b.spec_encode(), 52) as i32) by {
            assert(b.spec_encode().subrange(52, 56) =~= u32_bytes(b.matrix.0[4] as u32));
            lemma_be32_in(b.spec_encode(), 52, b.matrix.0[4] as u32);
            lemma_sign_casts(0, 0, b.matrix.0[4], 0, 0, 0, 0, 0);
        }
        assert(b.matrix.0[5] == be32(b.spec_encode(), 56) as i32) by {
            assert(b.spec_encode().subrange(56, 60) =~= u32_bytes(b.matrix.0[5] as u32));
            lemma_be32_in(b.spec_encode(), 56, b.matrix.0[5] as u32);
            lemma_sign_casts(0, 0, b.matrix.0[5], 0, 0, 0, 0, 0);
        }
        assert(b.matrix.0[6] == be32(b.spec_encode(), 60) as i32) by {
            assert(b.spec_encode().subrange(60, 64) =~= u32_bytes(b.matrix.0[6] as u32));
            lemma_be32_in(b.spec_encode(), 60, b.matrix.0[6] as u32);
            lemma_sign_casts(0, 0, b.matrix.0[6], 0, 0, 0, 0, 0);
        }
        assert(b.matrix.0[7] == be32(b.spec_encode(), 64) as i32) by {
            assert(b.spec_encode().subrange(64, 68) =~= u32_bytes(b.matrix.0[7] as u32));
            lemma_be32_in(b.spec_encode(), 64, b.matrix.0[7] as u32);
            lemma_sign_casts(0, 0, b.matrix.0[7], 0, 0, 0, 0, 0);
        }
        assert(b.matrix.0[8] == be32(b.spec_encode(), 68) as i32) by {
            assert(b.spec_encode().subrange(68, 72) =~= u32_bytes(b.matrix.0[8] as u32));
            lemma_be32_in(b.spec_encode(), 68, b.matrix.0[8] as u32);
            lemma_sign_casts(0, 0, b.matrix.0[8], 0, 0, 0, 0, 0);
        }
        assert(b.next_track_id == be32(b.spec_encode(), 96)) by {
            assert(b.spec_encode().subrange(96, 100) =~= u32_bytes(b.next_track_id));
            lemma_be32_in(b.spec_encode(), 96, b.next_track_id);
        }
    } else {
        assert(b.version == b.spec_encode()[0]) by {
            assert(b.spec_encode().subrange(0, 1) =~= seq![b.version]);
            assert(b.spec_encode()[0] == b.spec_encode().subrange(0, 1)[0]);
        }
        assert(b.flags.0 == be24(b.spec_encode(), 1)) by {
            assert(b.spec_encode().subrange(1, 4) =~= u24_bytes(b.flags.0));
            lemma_be24_in(b.spec_encode(), 1, b.flags.0);
        }
        assert(b.creation_time.0 == be64(b.spec_encode(), 4)) by {
            assert(b.spec_encode().subrange(4, 12) =~= u64_bytes(b.creation_time.0));
            lemma_be64_in(b.spec_encode(), 4, b.creation_time.0);
        }
        assert(b.modification_time.0 == be64(b.spec_encode(), 12)) by {
            assert(b.spec_encode().subrange(12, 20) =~= u64_bytes(b.modification_time.0));
            lemma_be64_in(b.spec_encode(), 12, b.modification_time.0);
        }
        assert(b.timescale == be32(b.spec_encode(), 20)) by {
            assert(b.spec_encode().subrange(20, 24) =~= u32_bytes(b.timescale));
            lemma_be32_in(b.spec_encode(), 20, b.timescale);
        }
        assert(b.duration == be64(b.spec_encode(), 24)) by {
            assert(b.spec_encode().subrange(24, 32) =~= u64_bytes(b.duration));
            lemma_be64_in(b.spec_encode(), 24, b.duration);
        }
        assert(b.rate.0 == be32(b.spec_encode(), 32) as i32) by {
            assert(b.spec_encode().subrange(32, 36) =~= u32_bytes(b.rate.0 as u32));
            lemma_be32_in(b.spec_encode(), 32, b.rate.0 as u32);
            lemma_sign_casts(0, 0, b.rate.0, 0, 0, 0, 0, 0);
        }
        assert(b.volume.0 == be16(b.spec_encode(), 36) as i16) by {
            assert(b.spec_encode().subrange(36, 38) =~= u16_bytes(b.volume.0 as u16));
            lemma_be16_in(b.spec_encode(), 36, b.volume.0 as u16);
            lemma_sign_casts(0, b.volume.0, 0, 0, 0, 0, 0, 0);
        }
        assert(b.matrix.0[0] == be32(b.spec_encode(), 48) as i32) by {
            assert(b.spec_encode().subrange(48, 52) =~= u32_bytes(b.matrix.0[0] as u32));
            lemma_be32_in(b.spec_encode(), 48, b.matrix.0[0] as u32);
            lemma_sign_casts(0, 0, b.matrix.0[0], 0, 0, 0, 0, 0);
        }
        assert(b.matrix.0[1] == be32(b.spec_encode(), 52) as i32) by {
            assert(b.spec_encode().subrange(52, 56) =~= u32_bytes(b.matrix.0[1] as u32));
            lemma_be32_in(b.spec_encode(), 52, b.matrix.0[1] as u32);
            lemma_sign_casts(0, 0, b.matrix.0[1], 0, 0, 0, 0, 0);
        }
        assert(b.matrix.0[2] == be32(b.spec_encode(), 56) as i32) by {
            assert(b.spec_encode().subrange(56, 60) =~= u32_bytes(b.matrix.0[2] as u32));
            lemma_be32_in(b.spec_encode(), 56, b.matrix.0[2] as u32);
            lemma_sign_casts(0, 0, b.matrix.0[2], 0, 0, 0, 0, 0);
        }
        assert(b.matrix.0[3] == be32(b.spec_encode(), 60) as i32) by {
            assert(b.spec_encode().subrange(60, 64) =~= u32_bytes(b.matrix.0[3] as u32));
            lemma_be32_in(b.spec_encode(), 60, b.matrix.0[3] as u32);
            lemma_sign_casts(0, 0, b.matrix.0[3], 0, 0, 0, 0, 0);
        }
        assert(b.matrix.0[4] == be32(b.spec_encode(), 64) as i32) by {
            assert(b.spec_encode().subrange(64, 68) =~= u32_bytes(b.matrix.0[4] as u32));
            lemma_be32_in(b.spec_encode(), 64, b.matrix.0[4] as u32);
            lemma_sign_casts(0, 0, b.matrix.0[4], 0, 0, 0, 0, 0);
        }
        assert(b.matrix.0[5] == be32(b.spec_encode(), 68) as i32) by {
            assert(b.spec_encode().subrange(68, 72) =~= u32_bytes(b.matrix.0[5] as u32));
            lemma_be32_in(b.spec_encode(), 68, b.matrix.0[5] as u32);
            lemma_sign_casts(0, 0, b.matrix.0[5], 0, 0, 0, 0, 0);
        }
        assert(b.matrix.0[6] == be32(b.spec_encode(), 72) as i32) by {
            assert(b.spec_encode().subrange(72, 76) =~= u32_bytes(b.matrix.0[6] as u32));
            lemma_be32_in(b.spec_encode(), 72, b.matrix.0[6] as u32);
            lemma_sign_casts(0, 0, b.matrix.0[6], 0, 0, 0, 0, 0);
        }
        assert(b.matrix.0[7] == be32(b.spec_encode(), 76) as i32) by {
            assert(b.spec_encode().subrange(76, 80) =~= u32_bytes(b.matrix.0[7] as u32));
            lemma_be32_in(b.spec_encode(), 76, b.matrix.0[7] as u32);
            lemma_sign_casts(0, 0, b.matrix.0[7], 0, 0, 0, 0, 0);
        }
        assert(b.matrix.0[8] == be32(b.spec_encode(), 80) as i32) by {
            assert(b.spec_encode().subrange(80, 84) =~= u32_bytes(b.matrix.0[8] as u32));
            lemma_be32_in(b.spec_encode(), 80, b.matrix.0[8] as u32);
            lemma_sign_casts(0, 0, b.matrix.0[8], 0, 0, 0, 0, 0);
        }
        assert(b.next_track_id == be32(b.spec_encode(), 108)) by {
            assert(b.spec_encode().subrange(108, 112) =~= u32_bytes(b.next_track_id));
            lemma_be32_in(b.spec_encode(), 108, b.next_track_id);
        }
    }
}

/// Encoding the box decoded from a payload of exactly the length its version
/// needs, with zero reserved bytes, gives the payload back.
pub proof fn lemma_mvhd_reencode(s: Seq<u8>, b: MvhdBox)
    requires
        MvhdBox::spec_decodes(s, b),
        s[0] == 0 ==> s.len() == 100 && s.subrange(26, 36) == Seq::new(10 as nat, |i: int| 0u8) && s.subrange(72, 96) == Seq::new(24 as nat, |i: int| 0u8),
        s[0] == 1 ==> s.len() == 112 && s.subrange(38, 48) == Seq::new(10 as nat, |i: int| 0u8) && s.subrange(84, 108) == Seq::new(24 as nat, |i: int| 0u8),
        s[0] <= 1,
    ensures
        b.spec_encode() == s,
{
    if s[0] == 0 {
        assert(s.subrange(0, 1) =~= seq![s[0]]);
        lemma_u24_bytes_of(s, 1);
        lemma_subrange_split(s, 0, 1, 4);
        lemma_u32_bytes_of(s, 4);
        lemma_subrange_split(s, 0, 4, 8);
        lemma_u32_bytes_of(s, 8);
        lemma_subrange_split(s, 0, 8, 12);
        lemma_u32_bytes_of(s, 12);
        lemma_subrange_split(s, 0, 12, 16);
        lemma_u32_bytes_of(s, 16);
        lemma_subrange_split(s, 0, 16, 20);
        lemma_u32_bytes_of(s, 20);
        lemma_sign_casts(0, 0, 0, 0, 0, 0, be32(s, 20), 0);
        lemma_subrange_split(s, 0, 20, 24);
        lemma_u16_bytes_of(s, 24);
        lemma_sign_casts(0, 0, 0, 0, 0, be16(s, 24), 0, 0);
        lemma_subrange_split(s, 0, 24, 26);
        lemma_subrange_split(s, 0, 26, 36);
        lemma_u32_bytes_of(s, 36);
        lemma_sign_casts(0, 0, 0, 0, 0, 0, be32(s, 36), 0);
        lemma_subrange_split(s, 0, 36, 40);
        lemma_u32_bytes_of(s, 40);
        lemma_sign_casts(0, 0, 0, 0, 0, 0, be32(s, 40), 0);
        lemma_subrange_split(s, 0, 40, 44);
        lemma_u32_bytes_of(s, 44);
        lemma_sign_casts(0, 0, 0, 0, 0, 0, be32(s, 44), 0);
        lemma_subrange_split(s, 0, 44, 48);
        lemma_u32_bytes_of(s, 48);
        lemma_sign_casts(0, 0, 0, 0, 0, 0, be32(s, 48), 0);
        lemma_subrange_split(s, 0, 48, 52);
        lemma_u32_bytes_of(s, 52);
        lemma_sign_casts(0, 0, 0, 0, 0, 0, be32(s, 52), 0);
        lemma_subrange_split(s, 0, 52, 56);
        lemma_u32_bytes_of(s, 56);
        lemma_sign_casts(0, 0, 0, 0, 0, 0, be32(s, 56), 0);
        lemma_subrange_split(s, 0, 56, 60);
        lemma_u32_bytes_of(s, 60);
        lemma_sign_casts(0, 0, 0, 0, 0, 0, be32(s, 60), 0);
        lemma_subrange_split(s, 0, 60, 64);
        lemma_u32_bytes_of(s, 64);
        lemma_sign_casts(0, 0, 0, 0, 0, 0, be32(s, 64), 0);
        lemma_subrange_split(s, 0, 64, 68);
        lemma_u32_bytes_of(s, 68);
        lemma_sign_casts(0, 0, 0, 0, 0, 0, be32(s, 68), 0);
        lemma_subrange_split(s, 0, 68, 72);
        lemma_subrange_split(s, 0, 72, 96);
        lemma_u32_bytes_of(s, 96);
        lemma_subrange_split(s, 0, 96, 100);
        assert(s.subrange(0, 100) =~= s);
    } else {
        assert(s.subrange(0, 1) =~= seq![s[0]]);
        lemma_u24_bytes_of(s, 1);
        lemma_subrange_split(s, 0, 1, 4);
        lemma_u64_bytes_of(s, 4);
        lemma_subrange_split(s, 0, 4, 12);
        lemma_u64_bytes_of(s, 12);
        lemma_subrange_split(s, 0, 12, 20);
        lemma_u32_bytes_of(s, 20);
        lemma_subrange_split(s, 0, 20, 24);
        lemma_u64_bytes_of(s, 24);
        lemma_subrange_split(s, 0, 24, 32);
        lemma_u32_bytes_of(s, 32);
        lemma_sign_casts(0, 0, 0, 0, 0, 0, be32(s, 32), 0);
        lemma_subrange_split(s, 0, 32, 36);
        lemma_u16_bytes_of(s, 36);
        lemma_sign_casts(0, 0, 0, 0, 0, be16(s, 36), 0, 0);
        lemma_subrange_split(s, 0, 36, 38);
        lemma_subrange_split(s, 0, 38, 48);
        lemma_u32_bytes_of(s, 48);
        lemma_sign_casts(0, 0, 0, 0, 0, 0, be32(s, 48), 0);
        lemma_subrange_split(s, 0, 48, 52);
        lemma_u32_bytes_of(s, 52);
        lemma_sign_casts(0, 0, 0, 0, 0, 0, be32(s, 52), 0);
        lemma_subrange_split(s, 0, 52, 56);
        lemma_u32_bytes_of(s, 56);
        lemma_sign_casts(0, 0, 0, 0, 0, 0, be32(s, 56), 0);
        lemma_subrange_split(s, 0, 56, 60);
        lemma_u32_bytes_of(s, 60);
        lemma_sign_casts(0, 0, 0, 0, 0, 0, be32(s, 60), 0);
        lemma_subrange_split(s, 0, 60, 64);
        lemma_u32_bytes_of(s, 64);
        lemma_sign_casts(0, 0, 0, 0, 0, 0, be32(s, 64), 0);
        lemma_subrange_split(s, 0, 64, 68);
        lemma_u32_bytes_of(s, 68);
        lemma_sign_casts(0, 0, 0, 0, 0, 0, be32(s, 68), 0);
        lemma_subrange_split(s, 0, 68, 72);
        lemma_u32_bytes_of(s, 72);
        lemma_sign_casts(0, 0, 0, 0, 0, 0, be32(s, 72), 0);
        lemma_subrange_split(s, 0, 72, 76);
        lemma_u32_bytes_of(s, 76);
        lemma_sign_casts(0, 0, 0, 0, 0, 0, be32(s, 76), 0);
        lemma_subrange_split(s, 0, 76, 80);
        lemma_u32_bytes_of(s, 80);
        lemma_sign_casts(0, 0, 0, 0, 0, 0, be32(s, 80), 0);
        lemma_subrange_split(s, 0, 80, 84);
        lemma_subrange_split(s, 0, 84, 108);
        lemma_u32_bytes_of(s, 108);
        lemma_subrange_split(s, 0, 108, 112);
        assert(s.subrange(0, 112) =~= s);
    }
}

/// The layout of a `mvhd` payload: what an owned `mvhd` box decoded from
/// `bytes` holds, field by field, read at fixed offsets.
pub proof fn lemma_mvhd_box_layout(bytes: Seq<u8>, v: MvhdBox)
    requires
        MvhdBox::spec_decodes(bytes, v),
    ensures
        v.version == bytes[0],
        v.flags.0 == be24(bytes, 1),
        v.version == 0 ==> v.creation_time.0 == be32(bytes, 4) as u64 && v.modification_time.0 == be32(bytes, 8) as u64 && v.timescale == be32(bytes, 12) && v.duration == be32(bytes, 16) as u64 && v.rate.0 == be32(bytes, 20) as i32 && v.volume.0 == be16(bytes, 24) as i16 && v.matrix.0[0] == be32(bytes, 36) as i32 && v.matrix.0[1] == be32(bytes, 40) as i32 && v.matrix.0[2] == be32(bytes, 44) as i32 && v.matrix.0[3] == be32(bytes, 48) as i32 && v.matrix.0[4] == be32(bytes, 52) as i32 && v.matrix.0[5] == be32(bytes, 56) as i32 && v.matrix.0[6] == be32(bytes, 60) as i32 && v.matrix.0[7] == be32(bytes, 64) as i32 && v.matrix.0[8] == be32(bytes, 68) as i32 && v.next_track_id == be32(bytes, 96),
        v.version == 1 ==> v.creation_time.0 == be64(bytes, 4) && v.modification_time.0 == be64(bytes, 12) && v.timescale == be32(bytes, 20) && v.duration == be64(bytes, 24) && v.rate.0 == be32(bytes, 32) as i32 && v.volume.0 == be16(bytes, 36) as i16 && v.matrix.0[0] == be32(bytes, 48) as i32 && v.matrix.0[1] == be32(bytes, 52) as i32 && v.matrix.0[2] == be32(bytes, 56) as i32 && v.matrix.0[3] == be32(bytes, 60) as i32 && v.matrix.0[4] == be32(bytes, 64) as i32 && v.matrix.0[5] == be32(bytes, 68) as i32 && v.matrix.0[6] == be32(bytes, 72) as i32 && v.matrix.0[7] == be32(bytes, 76) as i32 && v.matrix.0[8] == be32(bytes, 80) as i32 && v.next_track_id == be32(bytes, 108),
{
}

} // verus!
