//! Track Header Box (`tkhd`): the characteristics of a single track.
use vstd::prelude::*;

use crate::bytes::{be16, be24, be32, be64, u16_bytes, u24_bytes, u32_bytes, u64_bytes, lemma_u16_bytes_of, lemma_u24_bytes_of, lemma_u32_bytes_of, lemma_u64_bytes_of, lemma_sign_casts, lemma_subrange_split, lemma_be16_in, lemma_be24_in, lemma_be32_in, lemma_be64_in};
use crate::codec::{BoxCodec, BoxDecode, BoxEncode, short_buffer};
use crate::cursor::{put_u8, put_u16, put_u24, put_u32, put_u64, put_zeros, lemma_splice_concat, ReadCursor};
use crate::error::{Error, ErrorKind};
use crate::flags::{BoxFlags, TkhdFlags};
use crate::types::{BoxType, U8F8, U16F16, Matrix, QuickTimeDateTime};

verus! {

/// Track Header Box (`tkhd`).
#[derive(Debug, Clone, Copy)]
pub struct TkhdBox {
    /// Box version: 0 for 32-bit times and durations, 1 for 64-bit ones.
    pub version: u8,
    /// Box flags.
    pub flags: TkhdFlags,
    /// Creation time.
    pub creation_time: QuickTimeDateTime,
    /// Last modification time.
    pub modification_time: QuickTimeDateTime,
    /// Track identifier (never 0).
    pub track_id: u32,
    /// Duration in the movie timescale.
    pub duration: u64,
    /// Front-to-back order of video tracks.
    pub layer: i16,
    /// Group of alternative tracks.
    pub alternate_group: i16,
    /// Relative audio volume (8.8).
    pub volume: U8F8,
    /// Transformation matrix of the video.
    pub matrix: Matrix,
    /// Visual presentation width (16.16).
    pub width: U16F16,
    /// Visual presentation height (16.16).
    pub height: U16F16,
}

impl BoxCodec for TkhdBox {
    open spec fn spec_boxtype(&self) -> BoxType {
        BoxType::TKHD
    }

    fn boxtype(&self) -> (r: BoxType) {
        BoxType::TKHD
    }
}

impl TkhdBox {
    /// The payloads of version 0 and version 1.
    pub open spec fn spec_valid(bytes: Seq<u8>) -> bool {
        ||| bytes.len() >= 84 && bytes[0] == 0 && true
        ||| bytes.len() >= 96 && bytes[0] == 1 && true
    }
}

impl<'de> BoxDecode<'de> for TkhdBox {
    open spec fn spec_accepts(bytes: Seq<u8>) -> bool {
        TkhdBox::spec_valid(bytes)
    }

    open spec fn spec_decodes(bytes: Seq<u8>, v: Self) -> bool {
        &&& v.version == bytes[0]
        &&& v.flags.0 == be24(bytes, 1)
        &&& v.version == 0 ==> v.creation_time.0 == be32(bytes, 4) as u64 && v.modification_time.0 == be32(bytes, 8) as u64 && v.track_id == be32(bytes, 12) && v.duration == be32(bytes, 20) as u64 && v.layer == be16(bytes, 32) as i16 && v.alternate_group == be16(bytes, 34) as i16 && v.volume.0 == be16(bytes, 36) && v.matrix.0[0] == be32(bytes, 40) as i32 && v.matrix.0[1] == be32(bytes, 44) as i32 && v.matrix.0[2] == be32(bytes, 48) as i32 && v.matrix.0[3] == be32(bytes, 52) as i32 && v.matrix.0[4] == be32(bytes, 56) as i32 && v.matrix.0[5] == be32(bytes, 60) as i32 && v.matrix.0[6] == be32(bytes, 64) as i32 && v.matrix.0[7] == be32(bytes, 68) as i32 && v.matrix.0[8] == be32(bytes, 72) as i32 && v.width.0 == be32(bytes, 76) && v.height.0 == be32(bytes, 80)
        &&& v.version == 1 ==> v.creation_time.0 == be64(bytes, 4) && v.modification_time.0 == be64(bytes, 12) && v.track_id == be32(bytes, 20) && v.duration == be64(bytes, 28) && v.layer == be16(bytes, 44) as i16 && v.alternate_group == be16(bytes, 46) as i16 && v.volume.0 == be16(bytes, 48) && v.matrix.0[0] == be32(bytes, 52) as i32 && v.matrix.0[1] == be32(bytes, 56) as i32 && v.matrix.0[2] == be32(bytes, 60) as i32 && v.matrix.0[3] == be32(bytes, 64) as i32 && v.matrix.0[4] == be32(bytes, 68) as i32 && v.matrix.0[5] == be32(bytes, 72) as i32 && v.matrix.0[6] == be32(bytes, 76) as i32 && v.matrix.0[7] == be32(bytes, 80) as i32 && v.matrix.0[8] == be32(bytes, 84) as i32 && v.width.0 == be32(bytes, 88) && v.height.0 == be32(bytes, 92)
    }

    fn decode(bytes: &'de [u8]) -> (r: Result<Self, Error>)
        ensures
            bytes@.len() >= 4 && bytes@[0] > 1 ==> r == Err::<Self, Error>(Error { kind: ErrorKind::InvalidBoxVersion { reason: "0 or 1 in this specification", got: bytes@[0] }, offset: None, box_type: Some(BoxType::TKHD) }),
    {
        let mut cur = ReadCursor::new(bytes);
        let version = cur.read_u8()?;
        let flags = BoxFlags(cur.read_u24_be()?);
        if version == 0 {
            let creation_time_0 = cur.read_u32_be()? as u64;
            let modification_time_0 = cur.read_u32_be()? as u64;
            let track_id_0 = cur.read_u32_be()?;
            cur.advance(4)?;
            let duration_0 = cur.read_u32_be()? as u64;
            cur.advance(8)?;
            let layer_0 = cur.read_i16_be()?;
            let alternate_group_0 = cur.read_i16_be()?;
            let volume_0 = cur.read_u16_be()?;
            cur.advance(2)?;
            let matrix_0 = cur.read_i32_be()?;
            let matrix_1 = cur.read_i32_be()?;
            let matrix_2 = cur.read_i32_be()?;
            let matrix_3 = cur.read_i32_be()?;
            let matrix_4 = cur.read_i32_be()?;
            let matrix_5 = cur.read_i32_be()?;
            let matrix_6 = cur.read_i32_be()?;
            let matrix_7 = cur.read_i32_be()?;
            let matrix_8 = cur.read_i32_be()?;
            let width_0 = cur.read_u32_be()?;
            let height_0 = cur.read_u32_be()?;
            let r = TkhdBox { version, flags, creation_time: QuickTimeDateTime(creation_time_0), modification_time: QuickTimeDateTime(modification_time_0), track_id: track_id_0, duration: duration_0, layer: layer_0, alternate_group: alternate_group_0, volume: U8F8(volume_0), matrix: Matrix([matrix_0, matrix_1, matrix_2, matrix_3, matrix_4, matrix_5, matrix_6, matrix_7, matrix_8]), width: U16F16(width_0), height: U16F16(height_0) };
            
            Ok(r)
        } else if version == 1 {
            let creation_time_0 = cur.read_u64_be()?;
            let modification_time_0 = cur.read_u64_be()?;
            let track_id_0 = cur.read_u32_be()?;
            cur.advance(4)?;
            let duration_0 = cur.read_u64_be()?;
            cur.advance(8)?;
            let layer_0 = cur.read_i16_be()?;
            let alternate_group_0 = cur.read_i16_be()?;
            let volume_0 = cur.read_u16_be()?;
            cur.advance(2)?;
            let matrix_0 = cur.read_i32_be()?;
            let matrix_1 = cur.read_i32_be()?;
            let matrix_2 = cur.read_i32_be()?;
            let matrix_3 = cur.read_i32_be()?;
            let matrix_4 = cur.read_i32_be()?;
            let matrix_5 = cur.read_i32_be()?;
            let matrix_6 = cur.read_i32_be()?;
            let matrix_7 = cur.read_i32_be()?;
            let matrix_8 = cur.read_i32_be()?;
            let width_0 = cur.read_u32_be()?;
            let height_0 = cur.read_u32_be()?;
            let r = TkhdBox { version, flags, creation_time: QuickTimeDateTime(creation_time_0), modification_time: QuickTimeDateTime(modification_time_0), track_id: track_id_0, duration: duration_0, layer: layer_0, alternate_group: alternate_group_0, volume: U8F8(volume_0), matrix: Matrix([matrix_0, matrix_1, matrix_2, matrix_3, matrix_4, matrix_5, matrix_6, matrix_7, matrix_8]), width: U16F16(width_0), height: U16F16(height_0) };
            
            Ok(r)
        } else {
            Err(Error::in_box(ErrorKind::InvalidBoxVersion { reason: "0 or 1 in this specification", got: version }, BoxType::TKHD))
        }
    }
}

impl BoxEncode for TkhdBox {
    open spec fn spec_encode(&self) -> Seq<u8> {
        if self.version == 0 {
            seq![self.version] + u24_bytes(self.flags.0) + u32_bytes(self.creation_time.0 as u32) + u32_bytes(self.modification_time.0 as u32) + u32_bytes(self.track_id) + Seq::new(4 as nat, |i: int| 0u8) + u32_bytes(self.duration as u32) + Seq::new(8 as nat, |i: int| 0u8) + u16_bytes(self.layer as u16) + u16_bytes(self.alternate_group as u16) + u16_bytes(self.volume.0) + Seq::new(2 as nat, |i: int| 0u8) + u32_bytes(self.matrix.0[0] as u32) + u32_bytes(self.matrix.0[1] as u32) + u32_bytes(self.matrix.0[2] as u32) + u32_bytes(self.matrix.0[3] as u32) + u32_bytes(self.matrix.0[4] as u32) + u32_bytes(self.matrix.0[5] as u32) + u32_bytes(self.matrix.0[6] as u32) + u32_bytes(self.matrix.0[7] as u32) + u32_bytes(self.matrix.0[8] as u32) + u32_bytes(self.width.0) + u32_bytes(self.height.0)
        } else {
            seq![self.version] + u24_bytes(self.flags.0) + u64_bytes(self.creation_time.0) + u64_bytes(self.modification_time.0) + u32_bytes(self.track_id) + Seq::new(4 as nat, |i: int| 0u8) + u64_bytes(self.duration) + Seq::new(8 as nat, |i: int| 0u8) + u16_bytes(self.layer as u16) + u16_bytes(self.alternate_group as u16) + u16_bytes(self.volume.0) + Seq::new(2 as nat, |i: int| 0u8) + u32_bytes(self.matrix.0[0] as u32) + u32_bytes(self.matrix.0[1] as u32) + u32_bytes(self.matrix.0[2] as u32) + u32_bytes(self.matrix.0[3] as u32) + u32_bytes(self.matrix.0[4] as u32) + u32_bytes(self.matrix.0[5] as u32) + u32_bytes(self.matrix.0[6] as u32) + u32_bytes(self.matrix.0[7] as u32) + u32_bytes(self.matrix.0[8] as u32) + u32_bytes(self.width.0) + u32_bytes(self.height.0)
        }
    }

    open spec fn spec_encodable(&self) -> bool {
        self.version <= 1 && (self.version == 0 ==> self.creation_time.0 <= u32::MAX && self.modification_time.0 <= u32::MAX && self.duration <= u32::MAX)
    }

    fn encoded_len(&self) -> (r: usize) {
        if self.version == 0 {
            84
        } else if self.version == 1 {
            96
        } else {
            0
        }
    }

    #[verifier::rlimit(40)]
    fn encode_into(&self, bytes: &mut [u8]) -> (r: Result<usize, Error>) {
        let ghost s0 = bytes@;
        if self.version == 0 {
            if self.creation_time.0 > 0xFFFF_FFFF || self.modification_time.0 > 0xFFFF_FFFF || self.duration > 0xFFFF_FFFF {
                return Err(Error::in_box(ErrorKind::Overflow, BoxType::TKHD));
            }
            if bytes.len() < 84 {
                return Err(short_buffer(84, bytes.len()));
            }
            let p = put_u8(bytes, 0, self.version)?;
            let ghost mut acc = seq![self.version];
            let p = put_u24(bytes, p, self.flags.0)?;
            proof {
                lemma_splice_concat(s0, 0, acc, u24_bytes(self.flags.0));
                acc = acc + u24_bytes(self.flags.0);
            }
            let p = put_u32(bytes, p, self.creation_time.0 as u32)?;
            proof {
                lemma_splice_concat(s0, 0, acc, u32_bytes(self.creation_time.0 as u32));
                acc = acc + u32_bytes(self.creation_time.0 as u32);
            }
            let p = put_u32(bytes, p, self.modification_time.0 as u32)?;
            proof {
                lemma_splice_concat(s0, 0, acc, u32_bytes(self.modification_time.0 as u32));
                acc = acc + u32_bytes(self.modification_time.0 as u32);
            }
            let p = put_u32(bytes, p, self.track_id)?;
            proof {
                lemma_splice_concat(s0, 0, acc, u32_bytes(self.track_id));
                acc = acc + u32_bytes(self.track_id);
            }
            let p = put_zeros(bytes, p, 4)?;
            proof {
                lemma_splice_concat(s0, 0, acc, Seq::new(4 as nat, |i: int| 0u8));
                acc = acc + Seq::new(4 as nat, |i: int| 0u8);
            }
            let p = put_u32(bytes, p, self.duration as u32)?;
            proof {
                lemma_splice_concat(s0, 0, acc, u32_bytes(self.duration as u32));
                acc = acc + u32_bytes(self.duration as u32);
            }
            let p = put_zeros(bytes, p, 8)?;
            proof {
                lemma_splice_concat(s0, 0, acc, Seq::new(8 as nat, |i: int| 0u8));
                acc = acc + Seq::new(8 as nat, |i: int| 0u8);
            }
            let p = put_u16(bytes, p, self.layer as u16)?;
            proof {
                lemma_splice_concat(s0, 0, acc, u16_bytes(self.layer as u16));
                acc = acc + u16_bytes(self.layer as u16);
            }
            let p = put_u16(bytes, p, self.alternate_group as u16)?;
            proof {
                lemma_splice_concat(s0, 0, acc, u16_bytes(self.alternate_group as u16));
                acc = acc + u16_bytes(self.alternate_group as u16);
            }
            let p = put_u16(bytes, p, self.volume.0)?;
            proof {
                lemma_splice_concat(s0, 0, acc, u16_bytes(self.volume.0));
                acc = acc + u16_bytes(self.volume.0);
            }
            let p = put_zeros(bytes, p, 2)?;
            proof {
                lemma_splice_concat(s0, 0, acc, Seq::new(2 as nat, |i: int| 0u8));
                acc = acc + Seq::new(2 as nat, |i: int| 0u8);
            }
            let p = put_u32(bytes, p, self.matrix.0[0] as u32)?;
            proof {
                lemma_splice_concat(s0, 0, acc, u32_bytes(self.matrix.0[0] as u32));
                acc = acc + u32_bytes(self.matrix.0[0] as u32);
            }
            let p = put_u32(bytes, p, self.matrix.0[1] as u32)?;
            proof {
                lemma_splice_concat(s0, 0, acc, u32_bytes(self.matrix.0[1] as u32));
                acc = acc + u32_bytes(self.matrix.0[1] as u32);
            }
            let p = put_u32(bytes, p, self.matrix.0[2] as u32)?;
            proof {
                lemma_splice_concat(s0, 0, acc, u32_bytes(self.matrix.0[2] as u32));
                acc = acc + u32_bytes(self.matrix.0[2] as u32);
            }
            let p = put_u32(bytes, p, self.matrix.0[3] as u32)?;
            proof {
                lemma_splice_concat(s0, 0, acc, u32_bytes(self.matrix.0[3] as u32));
                acc = acc + u32_bytes(self.matrix.0[3] as u32);
            }
            let p = put_u32(bytes, p, self.matrix.0[4] as u32)?;
            proof {
                lemma_splice_concat(s0, 0, acc, u32_bytes(self.matrix.0[4] as u32));
                acc = acc + u32_bytes(self.matrix.0[4] as u32);
            }
            let p = put_u32(bytes, p, self.matrix.0[5] as u32)?;
            proof {
                lemma_splice_concat(s0, 0, acc, u32_bytes(self.matrix.0[5] as u32));
                acc = acc + u32_bytes(self.matrix.0[5] as u32);
            }
            let p = put_u32(bytes, p, self.matrix.0[6] as u32)?;
            proof {
                lemma_splice_concat(s0, 0, acc, u32_bytes(self.matrix.0[6] as u32));
                acc = acc + u32_bytes(self.matrix.0[6] as u32);
            }
            let p = put_u32(bytes, p, self.matrix.0[7] as u32)?;
            proof {
                lemma_splice_concat(s0, 0, acc, u32_bytes(self.matrix.0[7] as u32));
                acc = acc + u32_bytes(self.matrix.0[7] as u32);
            }
            let p = put_u32(bytes, p, self.matrix.0[8] as u32)?;
            proof {
                lemma_splice_concat(s0, 0, acc, u32_bytes(self.matrix.0[8] as u32));
                acc = acc + u32_bytes(self.matrix.0[8] as u32);
            }
            let p = put_u32(bytes, p, self.width.0)?;
            proof {
                lemma_splice_concat(s0, 0, acc, u32_bytes(self.width.0));
                acc = acc + u32_bytes(self.width.0);
            }
            let p = put_u32(bytes, p, self.height.0)?;
            proof {
                lemma_splice_concat(s0, 0, acc, u32_bytes(self.height.0));
                acc = acc + u32_bytes(self.height.0);
            }
            Ok(p)
        } else if self.version == 1 {
            if bytes.len() < 96 {
                return Err(short_buffer(96, bytes.len()));
            }
            let p = put_u8(bytes, 0, self.version)?;
            let ghost mut acc = seq![self.version];
            let p = put_u24(bytes, p, self.flags.0)?;
            proof {
                lemma_splice_concat(s0, 0, acc, u24_bytes(self.flags.0));
                acc = acc + u24_bytes(self.flags.0);
            }
            let p = put_u64(bytes, p, self.creation_time.0)?;
            proof {
                lemma_splice_concat(s0, 0, acc, u64_bytes(self.creation_time.0));
                acc = acc + u64_bytes(self.creation_time.0);
            }
            let p = put_u64(bytes, p, self.modification_time.0)?;
            proof {
                lemma_splice_concat(s0, 0, acc, u64_bytes(self.modification_time.0));
                acc = acc + u64_bytes(self.modification_time.0);
            }
            let p = put_u32(bytes, p, self.track_id)?;
            proof {
                lemma_splice_concat(s0, 0, acc, u32_bytes(self.track_id));
                acc = acc + u32_bytes(self.track_id);
            }
            let p = put_zeros(bytes, p, 4)?;
            proof {
                lemma_splice_concat(s0, 0, acc, Seq::new(4 as nat, |i: int| 0u8));
                acc = acc + Seq::new(4 as nat, |i: int| 0u8);
            }
            let p = put_u64(bytes, p, self.duration)?;
            proof {
                lemma_splice_concat(s0, 0, acc, u64_bytes(self.duration));
                acc = acc + u64_bytes(self.duration);
            }
            let p = put_zeros(bytes, p, 8)?;
            proof {
                lemma_splice_concat(s0, 0, acc, Seq::new(8 as nat, |i: int| 0u8));
                acc = acc + Seq::new(8 as nat, |i: int| 0u8);
            }
            let p = put_u16(bytes, p, self.layer as u16)?;
            proof {
                lemma_splice_concat(s0, 0, acc, u16_bytes(self.layer as u16));
                acc = acc + u16_bytes(self.layer as u16);
            }
            let p = put_u16(bytes, p, self.alternate_group as u16)?;
            proof {
                lemma_splice_concat(s0, 0, acc, u16_bytes(self.alternate_group as u16));
                acc = acc + u16_bytes(self.alternate_group as u16);
            }
            let p = put_u16(bytes, p, self.volume.0)?;
            proof {
                lemma_splice_concat(s0, 0, acc, u16_bytes(self.volume.0));
                acc = acc + u16_bytes(self.volume.0);
            }
            let p = put_zeros(bytes, p, 2)?;
            proof {
                lemma_splice_concat(s0, 0, acc, Seq::new(2 as nat, |i: int| 0u8));
                acc = acc + Seq::new(2 as nat, |i: int| 0u8);
            }
            let p = put_u32(bytes, p, self.matrix.0[0] as u32)?;
            proof {
                lemma_splice_concat(s0, 0, acc, u32_bytes(self.matrix.0[0] as u32));
                acc = acc + u32_bytes(self.matrix.0[0] as u32);
            }
            let p = put_u32(bytes, p, self.matrix.0[1] as u32)?;
            proof {
                lemma_splice_concat(s0, 0, acc, u32_bytes(self.matrix.0[1] as u32));
                acc = acc + u32_bytes(self.matrix.0[1] as u32);
            }
            let p = put_u32(bytes, p, self.matrix.0[2] as u32)?;
            proof {
                lemma_splice_concat(s0, 0, acc, u32_bytes(self.matrix.0[2] as u32));
                acc = acc + u32_bytes(self.matrix.0[2] as u32);
            }
            let p = put_u32(bytes, p, self.matrix.0[3] as u32)?;
            proof {
                lemma_splice_concat(s0, 0, acc, u32_bytes(self.matrix.0[3] as u32));
                acc = acc + u32_bytes(self.matrix.0[3] as u32);
            }
            let p = put_u32(bytes, p, self.matrix.0[4] as u32)?;
            proof {
                lemma_splice_concat(s0, 0, acc, u32_bytes(self.matrix.0[4] as u32));
                acc = acc + u32_bytes(self.matrix.0[4] as u32);
            }
            let p = put_u32(bytes, p, self.matrix.0[5] as u32)?;
            proof {
                lemma_splice_concat(s0, 0, acc, u32_bytes(self.matrix.0[5] as u32));
                acc = acc + u32_bytes(self.matrix.0[5] as u32);
            }
            let p = put_u32(bytes, p, self.matrix.0[6] as u32)?;
            proof {
                lemma_splice_concat(s0, 0, acc, u32_bytes(self.matrix.0[6] as u32));
                acc = acc + u32_bytes(self.matrix.0[6] as u32);
            }
            let p = put_u32(bytes, p, self.matrix.0[7] as u32)?;
            proof {
                lemma_splice_concat(s0, 0, acc, u32_bytes(self.matrix.0[7] as u32));
                acc = acc + u32_bytes(self.matrix.0[7] as u32);
            }
            let p = put_u32(bytes, p, self.matrix.0[8] as u32)?;
            proof {
                lemma_splice_concat(s0, 0, acc, u32_bytes(self.matrix.0[8] as u32));
                acc = acc + u32_bytes(self.matrix.0[8] as u32);
            }
            let p = put_u32(bytes, p, self.width.0)?;
            proof {
                lemma_splice_concat(s0, 0, acc, u32_bytes(self.width.0));
                acc = acc + u32_bytes(self.width.0);
            }
            let p = put_u32(bytes, p, self.height.0)?;
            proof {
                lemma_splice_concat(s0, 0, acc, u32_bytes(self.height.0));
                acc = acc + u32_bytes(self.height.0);
            }
            Ok(p)
        } else {
            Err(Error::in_box(ErrorKind::InvalidBoxVersion { reason: "0 or 1 in this specification", got: self.version }, BoxType::TKHD))
        }
    }
}

impl Default for TkhdBox {
    fn default() -> (r: TkhdBox)
        ensures
            r.version == 0,
            r.flags.0 == 0,
            r.creation_time.0 == 0,
            r.modification_time.0 == 0,
            r.track_id == 1,
            r.duration == 0,
            r.layer == 0,
            r.alternate_group == 0,
            r.volume.0 == 0,
            r.matrix.0@ == seq![0x10000i32, 0, 0, 0, 0x10000, 0, 0, 0, 0x4000_0000],
            r.width.0 == 0,
            r.height.0 == 0,
    {
        TkhdBox { version: 0, flags: BoxFlags(0), creation_time: QuickTimeDateTime(0), modification_time: QuickTimeDateTime(0), track_id: 1, duration: 0, layer: 0, alternate_group: 0, volume: U8F8(0), matrix: Matrix::identity(), width: U16F16(0), height: U16F16(0) }
    }
}

/// Decoding the encoding of a `tkhd` box gives the box back (for version 0,
/// provided its 64-bit fields fit in 32 bits).
#[verifier::rlimit(100)]
#[verifier::spinoff_prover]
pub proof fn lemma_tkhd_roundtrip(b: TkhdBox)
    requires
        b.version <= 1,
        b.flags.0 < 0x100_0000,
        b.version == 0 ==> b.creation_time.0 <= u32::MAX && b.modification_time.0 <= u32::MAX && b.duration <= u32::MAX,
    ensures
        TkhdBox::spec_accepts(b.spec_encode()),
        TkhdBox::spec_decodes(b.spec_encode(), b),
{
    if b.version == 0 {
        assert(b.version == b.spec_encode()[0]) by {
            assert(b.spec_encode().subrange(0, 1) =~= seq![b.version]);
            assert(b.spec_encode()[0] == b.spec_encode().subrange(0, 1)[0]);
        }
        assert(b.flags.0 == be24(b.spec_encode(), 1)) by {
            assert(b.spec_encode().subrange(1, 4) =~= u24_bytes(b.flags.0));
            lemma_be24_in(b.spec_encode(), 1, b.flags.0);
        }
        assert(b.creation_time.0 == be32(b.spec_encode(), 4) as u64) by {
            assert(b.spec_encode().subrange(4, 8) =~= u32_bytes(b.creation_time.0 as u32));
            lemma_be32_in(b.spec_encode(), 4, b.creation_time.0 as u32);
        }
        assert(b.modification_time.0 == be32(b.spec_encode(), 8) as u64) by {
            assert(b.spec_encode().subrange(8, 12) =~= u32_bytes(b.modification_time.0 as u32));
            lemma_be32_in(b.spec_encode(), 8, b.modification_time.0 as u32);
        }
        assert(b.track_id == be32(b.spec_encode(), 12)) by {
            assert(b.spec_encode().subrange(12, 16) =~= u32_bytes(b.track_id));
            lemma_be32_in(b.spec_encode(), 12, b.track_id);
        }
        assert(b.duration == be32(b.spec_encode(), 20) as u64) by {
            assert(b.spec_encode().subrange(20, 24) =~= u32_bytes(b.duration as u32));
            lemma_be32_in(b.spec_encode(), 20, b.duration as u32);
        }
        assert(b.layer == be16(b.spec_encode(), 32) as i16) by {
            assert(b.spec_encode().subrange(32, 34) =~= u16_bytes(b.layer as u16));
            lemma_be16_in(b.spec_encode(), 32, b.layer as u16);
            lemma_sign_casts(0, b.layer, 0, 0, 0, 0, 0, 0);
        }
        assert(b.alternate_group == be16(b.spec_encode(), 34) as i16) by {
            assert(b.spec_encode().subrange(34, 36) =~= u16_bytes(b.alternate_group as u16));
            lemma_be16_in(b.spec_encode(), 34, b.alternate_group as u16);
            lemma_sign_casts(0, b.alternate_group, 0, 0, 0, 0, 0, 0);
        }
        assert(b.volume.0 == be16(b.spec_encode(), 36)) by {
            assert(b.spec_encode().subrange(36, 38) =~= u16_bytes(b.volume.0));
            lemma_be16_in(b.spec_encode(), 36, b.volume.0);
        }
        assert(b.matrix.0[0] == be32(b.spec_encode(), 40) as i32) by {
            assert(b.spec_encode().subrange(40, 44) =~= u32_bytes(b.matrix.0[0] as u32));
            lemma_be32_in(b.spec_encode(), 40, b.matrix.0[0] as u32);
            lemma_sign_casts(0, 0, b.matrix.0[0], 0, 0, 0, 0, 0);
        }
        assert(b.matrix.0[1] == be32(b.spec_encode(), 44) as i32) by {
            assert(b.spec_encode().subrange(44, 48) =~= u32_bytes(b.matrix.0[1] as u32));
            lemma_be32_in(b.spec_encode(), 44, b.matrix.0[1] as u32);
            lemma_sign_casts(0, 0, b.matrix.0[1], 0, 0, 0, 0, 0);
        }
        assert(b.matrix.0[2] == be32(b.spec_encode(), 48) as i32) by {
            assert(b.spec_encode().subrange(48, 52) =~= u32_bytes(b.matrix.0[2] as u32));
            lemma_be32_in(b.spec_encode(), 48, b.matrix.0[2] as u32);
            lemma_sign_casts(0, 0, b.matrix.0[2], 0, 0, 0, 0, 0);
        }
        assert(b.matrix.0[3] == be32(b.spec_encode(), 52) as i32) by {
            assert(b.spec_encode().subrange(52, 56) =~= u32_bytes(b.matrix.0[3] as u32));
            lemma_be32_in(b.spec_encode(), 52, b.matrix.0[3] as u32);
            lemma_sign_casts(0, 0, b.matrix.0[3], 0, 0, 0, 0, 0);
        }
        assert(b.matrix.0[4] == be32(b.spec_encode(), 56) as i32) by {
            assert(b.spec_encode().subrange(56, 60) =~= u32_bytes(b.matrix.0[4] as u32));
            lemma_be32_in(b.spec_encode(), 56, b.matrix.0[4] as u32);
            lemma_sign_casts(0, 0, b.matrix.0[4], 0, 0, 0, 0, 0);
        }
        assert(b.matrix.0[5] == be32(b.spec_encode(), 60) as i32) by {
            assert(b.spec_encode().subrange(60, 64) =~= u32_bytes(b.matrix.0[5] as u32));
            lemma_be32_in(b.spec_encode(), 60, b.matrix.0[5] as u32);
            lemma_sign_casts(0, 0, b.matrix.0[5], 0, 0, 0, 0, 0);
        }
        assert(b.matrix.0[6] == be32(b.spec_encode(), 64) as i32) by {
            assert(b.spec_encode().subrange(64, 68) =~= u32_bytes(b.matrix.0[6] as u32));
            lemma_be32_in(b.spec_encode(), 64, b.matrix.0[6] as u32);
            lemma_sign_casts(0, 0, b.matrix.0[6], 0, 0, 0, 0, 0);
        }
        assert(b.matrix.0[7] == be32(b.spec_encode(), 68) as i32) by {
            assert(b.spec_encode().subrange(68, 72) =~= u32_bytes(b.matrix.0[7] as u32));
            lemma_be32_in(b.spec_encode(), 68, b.matrix.0[7] as u32);
            lemma_sign_casts(0, 0, b.matrix.0[7], 0, 0, 0, 0, 0);
        }
        assert(b.matrix.0[8] == be32(b.spec_encode(), 72) as i32) by {
            assert(b.spec_encode().subrange(72, 76) =~= u32_bytes(b.matrix.0[8] as u32));
            lemma_be32_in(b.spec_encode(), 72, b.matrix.0[8] as u32);
            lemma_sign_casts(0, 0, b.matrix.0[8], 0, 0, 0, 0, 0);
        }
        assert(b.width.0 == be32(b.spec_encode(), 76)) by {
            assert(b.spec_encode().subrange(76, 80) =~= u32_bytes(b.width.0));
            lemma_be32_in(b.spec_encode(), 76, b.width.0);
        }
        assert(b.height.0 == be32(b.spec_encode(), 80)) by {
            assert(b.spec_encode().subrange(80, 84) =~= u32_bytes(b.height.0));
            lemma_be32_in(b.spec_encode(), 80, b.height.0);
        }
    } else {
        assert(b.version == b.spec_encode()[0]) by {
            assert(b.spec_encode().subrange(0, 1) =~= seq![b.version]);
            assert(b.spec_encode()[0] == b.spec_encode().subrange(0, 1)[0]);
        }
        assert(b.flags.0 == be24(b.spec_encode(), 1)) by {
            assert(b.spec_encode().subrange(1, 4) =~= u24_bytes(b.flags.0));
            lemma_be24_in(b.spec_encode(), 1, b.flags.0);
        }
        assert(b.creation_time.0 == be64(b.spec_encode(), 4)) by {
            assert(b.spec_encode().subrange(4, 12) =~= u64_bytes(b.creation_time.0));
            lemma_be64_in(b.spec_encode(), 4, b.creation_time.0);
        }
        assert(b.modification_time.0 == be64(b.spec_encode(), 12)) by {
            assert(b.spec_encode().subrange(12, 20) =~= u64_bytes(b.modification_time.0));
            lemma_be64_in(b.spec_encode(), 12, b.modification_time.0);
        }
        assert(b.track_id == be32(b.spec_encode(), 20)) by {
            assert(b.spec_encode().subrange(20, 24) =~= u32_bytes(b.track_id));
            lemma_be32_in(b.spec_encode(), 20, b.track_id);
        }
        assert(b.duration == be64(b.spec_encode(), 28)) by {
            assert(b.spec_encode().subrange(28, 36) =~= u64_bytes(b.duration));
            lemma_be64_in(b.spec_encode(), 28, b.duration);
        }
        assert(b.layer == be16(b.spec_encode(), 44) as i16) by {
            assert(b.spec_encode().subrange(44, 46) =~= u16_bytes(b.layer as u16));
            lemma_be16_in(b.spec_encode(), 44, b.layer as u16);
            lemma_sign_casts(0, b.layer, 0, 0, 0, 0, 0, 0);
        }
        assert(b.alternate_group == be16(b.spec_encode(), 46) as i16) by {
            assert(b.spec_encode().subrange(46, 48) =~= u16_bytes(b.alternate_group as u16));
            lemma_be16_in(b.spec_encode(), 46, b.alternate_group as u16);
            lemma_sign_casts(0, b.alternate_group, 0, 0, 0, 0, 0, 0);
        }
        assert(b.volume.0 == be16(b.spec_encode(), 48)) by {
            assert(b.spec_encode().subrange(48, 50) =~= u16_bytes(b.volume.0));
            lemma_be16_in(b.spec_encode(), 48, b.volume.0);
        }
        assert(b.matrix.0[0] == be32(b.spec_encode(), 52) as i32) by {
            assert(b.spec_encode().subrange(52, 56) =~= u32_bytes(b.matrix.0[0] as u32));
            lemma_be32_in(b.spec_encode(), 52, b.matrix.0[0] as u32);
            lemma_sign_casts(0, 0, b.matrix.0[0], 0, 0, 0, 0, 0);
        }
        assert(b.matrix.0[1] == be32(b.spec_encode(), 56) as i32) by {
            assert(b.spec_encode().subrange(56, 60) =~= u32_bytes(b.matrix.0[1] as u32));
            lemma_be32_in(b.spec_encode(), 56, b.matrix.0[1] as u32);
            lemma_sign_casts(0, 0, b.matrix.0[1], 0, 0, 0, 0, 0);
        }
        assert(b.matrix.0[2] == be32(b.spec_encode(), 60) as i32) by {
            assert(b.spec_encode().subrange(60, 64) =~= u32_bytes(b.matrix.0[2] as u32));
            lemma_be32_in(b.spec_encode(), 60, b.matrix.0[2] as u32);
            lemma_sign_casts(0, 0, b.matrix.0[2], 0, 0, 0, 0, 0);
        }
        assert(b.matrix.0[3] == be32(b.spec_encode(), 64) as i32) by {
            assert(b.spec_encode().subrange(64, 68) =~= u32_bytes(b.matrix.0[3] as u32));
            lemma_be32_in(b.spec_encode(), 64, b.matrix.0[3] as u32);
            lemma_sign_casts(0, 0, b.matrix.0[3], 0, 0, 0, 0, 0);
        }
        assert(b.matrix.0[4] == be32(b.spec_encode(), 68) as i32) by {
            assert(b.spec_encode().subrange(68, 72) =~= u32_bytes(b.matrix.0[4] as u32));
            lemma_be32_in(b.spec_encode(), 68, b.matrix.0[4] as u32);
            lemma_sign_casts(0, 0, b.matrix.0[4], 0, 0, 0, 0, 0);
        }
        assert(b.matrix.0[5] == be32(b.spec_encode(), 72) as i32) by {
            assert(b.spec_encode().subrange(72, 76) =~= u32_bytes(b.matrix.0[5] as u32));
            lemma_be32_in(b.spec_encode(), 72, b.matrix.0[5] as u32);
            lemma_sign_casts(0, 0, b.matrix.0[5], 0, 0, 0, 0, 0);
        }
        assert(b.matrix.0[6] == be32(b.spec_encode(), 76) as i32) by {
            assert(b.spec_encode().subrange(76, 80) =~= u32_bytes(b.matrix.0[6] as u32));
            lemma_be32_in(b.spec_encode(), 76, b.matrix.0[6] as u32);
            lemma_sign_casts(0, 0, b.matrix.0[6], 0, 0, 0, 0, 0);
        }
        assert(b.matrix.0[7] == be32(b.spec_encode(), 80) as i32) by {
            assert(b.spec_encode().subrange(80, 84) =~= u32_bytes(b.matrix.0[7] as u32));
            lemma_be32_in(b.spec_encode(), 80, b.matrix.0[7] as u32);
            lemma_sign_casts(0, 0, b.matrix.0[7], 0, 0, 0, 0, 0);
        }
        assert(b.matrix.0[8] == be32(b.spec_encode(), 84) as i32) by {
            assert(b.spec_encode().subrange(84, 88) =~= u32_bytes(b.matrix.0[8] as u32));
            lemma_be32_in(b.spec_encode(), 84, b.matrix.0[8] as u32);
            lemma_sign_casts(0, 0, b.matrix.0[8], 0, 0, 0, 0, 0);
        }
        assert(b.width.0 == be32(b.spec_encode(), 88)) by {
            assert(b.spec_encode().subrange(88, 92) =~= u32_bytes(b.width.0));
            lemma_be32_in(b.spec_encode(), 88, b.width.0);
        }
        assert(b.height.0 == be32(b.spec_encode(), 92)) by {
            assert(b.spec_encode().subrange(92, 96) =~= u32_bytes(b.height.0));
            lemma_be32_in(b.spec_encode(), 92, b.height.0);
        }
    }
}

/// Encoding the box decoded from a payload of exactly the length its version
/// needs, with zero reserved bytes, gives the payload back.
pub proof fn lemma_tkhd_reencode(s: Seq<u8>, b: TkhdBox)
    requires
        TkhdBox::spec_decodes(s, b),
        s[0] == 0 ==> s.len() == 84 && s.subrange(16, 20) == Seq::new(4 as nat, |i: int| 0u8) && s.subrange(24, 32) == Seq::new(8 as nat, |i: int| 0u8) && s.subrange(38, 40) == Seq::new(2 as nat, |i: int| 0u8),
        s[0] == 1 ==> s.len() == 96 && s.subrange(24, 28) == Seq::new(4 as nat, |i: int| 0u8) && s.subrange(36, 44) == Seq::new(8 as nat, |i: int| 0u8) && s.subrange(50, 52) == Seq::new(2 as nat, |i: int| 0u8),
        s[0] <= 1,
    ensures
        b.spec_encode() == s,
{
    if s[0] == 0 {
        assert(s.subrange(0, 1) =~= seq![s[0]]);
        lemma_u24_bytes_of(s, 1);
        lemma_subrange_split(s, 0, 1, 4);
        lemma_u32_bytes_of(s, 4);
        lemma_subrange_split(s, 0, 4, 8);
        lemma_u32_bytes_of(s, 8);
        lemma_subrange_split(s, 0, 8, 12);
        lemma_u32_bytes_of(s, 12);
        lemma_subrange_split(s, 0, 12, 16);
        lemma_subrange_split(s, 0, 16, 20);
        lemma_u32_bytes_of(s, 20);
        lemma_subrange_split(s, 0, 20, 24);
        lemma_subrange_split(s, 0, 24, 32);
        lemma_u16_bytes_of(s, 32);
        lemma_sign_casts(0, 0, 0, 0, 0, be16(s, 32), 0, 0);
        lemma_subrange_split(s, 0, 32, 34);
        lemma_u16_bytes_of(s, 34);
        lemma_sign_casts(0, 0, 0, 0, 0, be16(s, 34), 0, 0);
        lemma_subrange_split(s, 0, 34, 36);
        lemma_u16_bytes_of(s, 36);
        lemma_subrange_split(s, 0, 36, 38);
        lemma_subrange_split(s, 0, 38, 40);
        lemma_u32_bytes_of(s, 40);
        lemma_sign_casts(0, 0, 0, 0, 0, 0, be32(s, 40), 0);
        lemma_subrange_split(s, 0, 40, 44);
        lemma_u32_bytes_of(s, 44);
        lemma_sign_casts(0, 0, 0, 0, 0, 0, be32(s, 44), 0);
        lemma_subrange_split(s, 0, 44, 48);
        lemma_u32_bytes_of(s, 48);
        lemma_sign_casts(0, 0, 0, 0, 0, 0, be32(s, 48), 0);
        lemma_subrange_split(s, 0, 48, 52);
        lemma_u32_bytes_of(s, 52);
        lemma_sign_casts(0, 0, 0, 0, 0, 0, be32(s, 52), 0);
        lemma_subrange_split(s, 0, 52, 56);
        lemma_u32_bytes_of(s, 56);
        lemma_sign_casts(0, 0, 0, 0, 0, 0, be32(s, 56), 0);
        lemma_subrange_split(s, 0, 56, 60);
        lemma_u32_bytes_of(s, 60);
        lemma_sign_casts(0, 0, 0, 0, 0, 0, be32(s, 60), 0);
        lemma_subrange_split(s, 0, 60, 64);
        lemma_u32_bytes_of(s, 64);
        lemma_sign_casts(0, 0, 0, 0, 0, 0, be32(s, 64), 0);
        lemma_subrange_split(s, 0, 64, 68);
        lemma_u32_bytes_of(s, 68);
        lemma_sign_casts(0, 0, 0, 0, 0, 0, be32(s, 68), 0);
        lemma_subrange_split(s, 0, 68, 72);
        lemma_u32_bytes_of(s, 72);
        lemma_sign_casts(0, 0, 0, 0, 0, 0, be32(s, 72), 0);
        lemma_subrange_split(s, 0, 72, 76);
        lemma_u32_bytes_of(s, 76);
        lemma_subrange_split(s, 0, 76, 80);
        lemma_u32_bytes_of(s, 80);
        lemma_subrange_split(s, 0, 80, 84);
        assert(s.subrange(0, 84) =~= s);
    } else {
        assert(s.subrange(0, 1) =~= seq![s[0]]);
        lemma_u24_bytes_of(s, 1);
        lemma_subrange_split(s, 0, 1, 4);
        lemma_u64_bytes_of(s, 4);
        lemma_subrange_split(s, 0, 4, 12);
        lemma_u64_bytes_of(s, 12);
        lemma_subrange_split(s, 0, 12, 20);
        lemma_u32_bytes_of(s, 20);
        lemma_subrange_split(s, 0, 20, 24);
        lemma_subrange_split(s, 0, 24, 28);
        lemma_u64_bytes_of(s, 28);
        lemma_subrange_split(s, 0, 28, 36);
        lemma_subrange_split(s, 0, 36, 44);
        lemma_u16_bytes_of(s, 44);
        lemma_sign_casts(0, 0, 0, 0, 0, be16(s, 44), 0, 0);
        lemma_subrange_split(s, 0, 44, 46);
        lemma_u16_bytes_of(s, 46);
        lemma_sign_casts(0, 0, 0, 0, 0, be16(s, 46), 0, 0);
        lemma_subrange_split(s, 0, 46, 48);
        lemma_u16_bytes_of(s, 48);
        lemma_subrange_split(s, 0, 48, 50);
        lemma_subrange_split(s, 0, 50, 52);
        lemma_u32_bytes_of(s, 52);
        lemma_sign_casts(0, 0, 0, 0, 0, 0, be32(s, 52), 0);
        lemma_subrange_split(s, 0, 52, 56);
        lemma_u32_bytes_of(s, 56);
        lemma_sign_casts(0, 0, 0, 0, 0, 0, be32(s, 56), 0);
        lemma_subrange_split(s, 0, 56, 60);
        lemma_u32_bytes_of(s, 60);
        lemma_sign_casts(0, 0, 0, 0, 0, 0, be32(s, 60), 0);
        lemma_subrange_split(s, 0, 60, 64);
        lemma_u32_bytes_of(s, 64);
        lemma_sign_casts(0, 0, 0, 0, 0, 0, be32(s, 64), 0);
        lemma_subrange_split(s, 0, 64, 68);
        lemma_u32_bytes_of(s, 68);
        lemma_sign_casts(0, 0, 0, 0, 0, 0, be32(s, 68), 0);
        lemma_subrange_split(s, 0, 68, 72);
        lemma_u32_bytes_of(s, 72);
        lemma_sign_casts(0, 0, 0, 0, 0, 0, be32(s, 72), 0);
        lemma_subrange_split(s, 0, 72, 76);
        lemma_u32_bytes_of(s, 76);
        lemma_sign_casts(0, 0, 0, 0, 0, 0, be32(s, 76), 0);
        lemma_subrange_split(s, 0, 76, 80);
        lemma_u32_bytes_of(s, 80);
        lemma_sign_casts(0, 0, 0, 0, 0, 0, be32(s, 80), 0);
        lemma_subrange_split(s, 0, 80, 84);
        lemma_u32_bytes_of(s, 84);
        lemma_sign_casts(0, 0, 0, 0, 0, 0, be32(s, 84), 0);
        lemma_subrange_split(s, 0, 84, 88);
        lemma_u32_bytes_of(s, 88);
        lemma_subrange_split(s, 0, 88, 92);
        lemma_u32_bytes_of(s, 92);
        lemma_subrange_split(s, 0, 92, 96);
        assert(s.subrange(0, 96) =~= s);
    }
}

/// The layout of a `tkhd` payload: what an owned `tkhd` box decoded from
/// `bytes` holds, field by field, read at fixed offsets.
pub proof fn lemma_tkhd_box_layout(bytes: Seq<u8>, v: TkhdBox)
    requires
        TkhdBox::spec_decodes(bytes, v),
    ensures
        v.version == bytes[0],
        v.flags.0 == be24(bytes, 1),
        v.version == 0 ==> v.creation_time.0 == be32(bytes, 4) as u64 && v.modification_time.0 == be32(bytes, 8) as u64 && v.track_id == be32(bytes, 12) && v.duration == be32(bytes, 20) as u64 && v.layer == be16(bytes, 32) as i16 && v.alternate_group == be16(bytes, 34) as i16 && v.volume.0 == be16(bytes, 36) && v.matrix.0[0] == be32(bytes, 40) as i32 && v.matrix.0[1] == be32(bytes, 44) as i32 && v.matrix.0[2] == be32(bytes, 48) as i32 && v.matrix.0[3] == be32(bytes, 52) as i32 && v.matrix.0[4] == be32(bytes, 56) as i32 && v.matrix.0[5] == be32(bytes, 60) as i32 && v.matrix.0[6] == be32(bytes, 64) as i32 && v.matrix.0[7] == be32(bytes, 68) as i32 && v.matrix.0[8] == be32(bytes, 72) as i32 && v.width.0 == be32(bytes, 76) && v.height.0 == be32(bytes, 80),
        v.version == 1 ==> v.creation_time.0 == be64(bytes, 4) && v.modification_time.0 == be64(bytes, 12) && v.track_id == be32(bytes, 20) && v.duration == be64(bytes, 28) && v.layer == be16(bytes, 44) as i16 && v.alternate_group == be16(bytes, 46) as i16 && v.volume.0 == be16(bytes, 48) && v.matrix.0[0] == be32(bytes, 52) as i32 && v.matrix.0[1] == be32(bytes, 56) as i32 && v.matrix.0[2] == be32(bytes, 60) as i32 && v.matrix.0[3] == be32(bytes, 64) as i32 && v.matrix.0[4] == be32(bytes, 68) as i32 && v.matrix.0[5] == be32(bytes, 72) as i32 && v.matrix.0[6] == be32(bytes, 76) as i32 && v.matrix.0[7] == be32(bytes, 80) as i32 && v.matrix.0[8] == be32(bytes, 84) as i32 && v.width.0 == be32(bytes, 88) && v.height.0 == be32(bytes, 92),
{
}

} // verus!
