//! Video Media Header Box (`vmhd`): compositing mode and colour of a video track.
use vstd::prelude::*;

use crate::bytes::{be16, be24, u16_bytes, u24_bytes, lemma_u16_bytes_of, lemma_u24_bytes_of, lemma_subrange_split, lemma_be16_in, lemma_be24_in};
use crate::codec::{BoxCodec, BoxDecode, BoxEncode, short_buffer};
use crate::cursor::{put_u8, put_u16, put_u24, lemma_splice_concat, ReadCursor};
use crate::error::Error;
use crate::flags::{BoxFlags, VmhdFlags};
use crate::types::BoxType;

verus! {

/// Video Media Header Box (`vmhd`): version, flags, graphics mode and three colour values.
#[derive(Debug, Clone, Copy)]
pub struct VmhdBox {
    /// Box version.
    pub version: u8,
    /// Box flags (1 for QuickTime compatibility).
    pub flags: VmhdFlags,
    /// Compositing mode (0 = copy).
    pub graphics_mode: u16,
    /// Red, green and blue values for the graphics mode.
    pub opcolor: [u16; 3],
}

impl BoxCodec for VmhdBox {
    open spec fn spec_boxtype(&self) -> BoxType {
        BoxType::VMHD
    }

    fn boxtype(&self) -> (r: BoxType) {
        BoxType::VMHD
    }
}

impl<'de> BoxDecode<'de> for VmhdBox {
    open spec fn spec_accepts(bytes: Seq<u8>) -> bool {
        bytes.len() >= 12
    }

    open spec fn spec_decodes(bytes: Seq<u8>, v: Self) -> bool {
        &&& v.version == bytes[0]
        &&& v.flags.0 == be24(bytes, 1)
        &&& v.graphics_mode == be16(bytes, 4)
        &&& v.opcolor[0] == be16(bytes, 6)
        &&& v.opcolor[1] == be16(bytes, 8)
        &&& v.opcolor[2] == be16(bytes, 10)
    }

    fn decode(bytes: &'de [u8]) -> (r: Result<Self, Error>) {
        let mut cur = ReadCursor::new(bytes);
        let version_0 = cur.read_u8()?;
        let flags_0 = cur.read_u24_be()?;
        let graphics_mode_0 = cur.read_u16_be()?;
        let opcolor_0 = cur.read_u16_be()?;
        let opcolor_1 = cur.read_u16_be()?;
        let opcolor_2 = cur.read_u16_be()?;
        Ok(VmhdBox { version: version_0, flags: BoxFlags(flags_0), graphics_mode: graphics_mode_0, opcolor: [opcolor_0, opcolor_1, opcolor_2] })
    }
}

impl BoxEncode for VmhdBox {
    open spec fn spec_encode(&self) -> Seq<u8> {
        seq![self.version] + u24_bytes(self.flags.0) + u16_bytes(self.graphics_mode) + u16_bytes(self.opcolor[0]) + u16_bytes(self.opcolor[1]) + u16_bytes(self.opcolor[2])
    }

    open spec fn spec_encodable(&self) -> bool {
        true
    }

    fn encoded_len(&self) -> (r: usize) {
        12
    }

    fn encode_into(&self, bytes: &mut [u8]) -> (r: Result<usize, Error>) {
        let ghost s0 = bytes@;
        if bytes.len() < 12 {
            return Err(short_buffer(12, bytes.len()));
        }
        let p = put_u8(bytes, 0, self.version)?;
        let ghost mut acc = seq![self.version];
        let p = put_u24(bytes, p, self.flags.0)?;
        proof {
                lemma_splice_concat(s0, 0, acc, u24_bytes(self.flags.0));
                acc = acc + u24_bytes(self.flags.0);
            }
        let p = put_u16(bytes, p, self.graphics_mode)?;
        proof {
                lemma_splice_concat(s0, 0, acc, u16_bytes(self.graphics_mode));
                acc = acc + u16_bytes(self.graphics_mode);
            }
        let p = put_u16(bytes, p, self.opcolor[0])?;
        proof {
                lemma_splice_concat(s0, 0, acc, u16_bytes(self.opcolor[0]));
                acc = acc + u16_bytes(self.opcolor[0]);
            }
        let p = put_u16(bytes, p, self.opcolor[1])?;
        proof {
                lemma_splice_concat(s0, 0, acc, u16_bytes(self.opcolor[1]));
                acc = acc + u16_bytes(self.opcolor[1]);
            }
        let p = put_u16(bytes, p, self.opcolor[2])?;
        proof {
                lemma_splice_concat(s0, 0, acc, u16_bytes(self.opcolor[2]));
                acc = acc + u16_bytes(self.opcolor[2]);
            }
        Ok(p)
    }
}

impl Default for VmhdBox {
    fn default() -> (r: VmhdBox)
        ensures
            r.version == 0,
            r.flags.0 == 1,
            r.graphics_mode == 0,
            r.opcolor@ == seq![0u16, 0, 0],
    {
        let r = VmhdBox { version: 0, flags: BoxFlags(1), graphics_mode: 0, opcolor: [0, 0, 0] };
        assert(r.opcolor@ =~= seq![0u16, 0, 0]);
        r
    }
}

/// Decoding the encoding of a `vmhd` box gives the box back.
pub proof fn lemma_vmhd_roundtrip(b: VmhdBox)
    requires
        b.flags.0 < 0x100_0000,
    ensures
        VmhdBox::spec_accepts(b.spec_encode()),
        VmhdBox::spec_decodes(b.spec_encode(), b),
{
    assert(b.version == b.spec_encode()[0]) by {
            assert(b.spec_encode().subrange(0, 1) =~= seq![b.version]);
            assert(b.spec_encode()[0] == b.spec_encode().subrange(0, 1)[0]);
        }
    assert(b.flags.0 == be24(b.spec_encode(), 1)) by {
            assert(b.spec_encode().subrange(1, 4) =~= u24_bytes(b.flags.0));
            lemma_be24_in(b.spec_encode(), 1, b.flags.0);
        }
    assert(b.graphics_mode == be16(b.spec_encode(), 4)) by {
            assert(b.spec_encode().subrange(4, 6) =~= u16_bytes(b.graphics_mode));
            lemma_be16_in(b.spec_encode(), 4, b.graphics_mode);
        }
    assert(b.opcolor[0] == be16(b.spec_encode(), 6)) by {
            assert(b.spec_encode().subrange(6, 8) =~= u16_bytes(b.opcolor[0]));
            lemma_be16_in(b.spec_encode(), 6, b.opcolor[0]);
        }
    assert(b.opcolor[1] == be16(b.spec_encode(), 8)) by {
            assert(b.spec_encode().subrange(8, 10) =~= u16_bytes(b.opcolor[1]));
            lemma_be16_in(b.spec_encode(), 8, b.opcolor[1]);
        }
    assert(b.opcolor[2] == be16(b.spec_encode(), 10)) by {
            assert(b.spec_encode().subrange(10, 12) =~= u16_bytes(b.opcolor[2]));
            lemma_be16_in(b.spec_encode(), 10, b.opcolor[2]);
        }
}

/// Encoding the box decoded from a payload of exactly 12 bytes, whose
/// reserved bytes are zero, gives the payload back.
pub proof fn lemma_vmhd_reencode(s: Seq<u8>, b: VmhdBox)
    requires
        s.len() == 12,
        VmhdBox::spec_decodes(s, b),
    ensures
        b.spec_encode() == s,
{
    assert(s.subrange(0, 1) =~= seq![s[0]]);
    lemma_u24_bytes_of(s, 1);
    lemma_subrange_split(s, 0, 1, 4);
    lemma_u16_bytes_of(s, 4);
    lemma_subrange_split(s, 0, 4, 6);
    lemma_u16_bytes_of(s, 6);
    lemma_subrange_split(s, 0, 6, 8);
    lemma_u16_bytes_of(s, 8);
    lemma_subrange_split(s, 0, 8, 10);
    lemma_u16_bytes_of(s, 10);
    lemma_subrange_split(s, 0, 10, 12);
    assert(s.subrange(0, 12) =~= s);
}

/// The layout of a `vmhd` payload: what an owned `vmhd` box decoded from
/// `bytes` holds, field by field, read at fixed offsets.
pub proof fn lemma_vmhd_box_layout(bytes: Seq<u8>, v: VmhdBox)
    requires
        VmhdBox::spec_decodes(bytes, v),
    ensures
        v.version == bytes[0],
        v.flags.0 == be24(bytes, 1),
        v.graphics_mode == be16(bytes, 4),
        v.opcolor[0] == be16(bytes, 6),
        v.opcolor[1] == be16(bytes, 8),
        v.opcolor[2] == be16(bytes, 10),
{
}

} // verus!
