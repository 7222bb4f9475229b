//! Track Fragment Header Box (`tfhd`): the defaults of the samples of a track
//! fragment. Each optional field is present exactly when its flag is set.
use vstd::prelude::*;

use crate::bytes::{be24, be32, be64, u24_bytes, u32_bytes, u64_bytes, opt_u32_bytes, opt_u64_bytes, lemma_be24_at, lemma_be32_at, lemma_be64_at, lemma_u24_bytes_of, lemma_u32_bytes_of, lemma_u64_bytes_of};
use crate::codec::{BoxCodec, BoxDecode, BoxEncode, short_buffer};
use crate::cursor::{put_u8, put_u24, put_u32, put_u64, lemma_splice_concat, ReadCursor, splice};
use crate::error::{Error, ErrorKind};
use crate::flags::{BoxFlags, TfhdFlags};
use crate::types::BoxType;

verus! {

/// Whether the `tfhd` flags mark the field with flag `mask` as present.
pub open spec fn tfhd_has(flags: u32, mask: u32) -> bool {
    BoxFlags::has(flags, mask)
}

/// The size of the optional field with flag `mask` and width `w` under `flags`.
pub open spec fn tfhd_width(flags: u32, mask: u32, w: int) -> int {
    if tfhd_has(flags, mask) {
        w
    } else {
        0
    }
}

/// The offsets in a `tfhd` payload where the optional fields start (index 0
/// to 4), and where the payload ends (index 5).
pub open spec fn tfhd_off(flags: u32, k: int) -> int {
    8 + (if k >= 1 { tfhd_width(flags, 0x000001, 8) } else { 0 })
        + (if k >= 2 { tfhd_width(flags, 0x000002, 4) } else { 0 })
        + (if k >= 3 { tfhd_width(flags, 0x000008, 4) } else { 0 })
        + (if k >= 4 { tfhd_width(flags, 0x000010, 4) } else { 0 })
        + (if k >= 5 { tfhd_width(flags, 0x000020, 4) } else { 0 })
}

/// The 32-bit field at `off` of `s` when `present`.
pub open spec fn opt_be32(present: bool, s: Seq<u8>, off: int) -> Option<u32> {
    if present {
        Some(be32(s, off))
    } else {
        None
    }
}

/// Track Fragment Header Box (`tfhd`).
#[derive(Debug, Clone, Copy)]
pub struct TfhdBox {
    /// Box version.
    pub version: u8,
    /// Box flags: which optional fields are present, and two further markers.
    pub flags: TfhdFlags,
    /// The track this fragment belongs to.
    pub track_id: u32,
    /// Base offset for the data offsets of the fragment's runs.
    pub base_data_offset: Option<u64>,
    /// Index of the sample description of the fragment's samples.
    pub sample_description_index: Option<u32>,
    /// Default duration of the fragment's samples.
    pub default_sample_duration: Option<u32>,
    /// Default size of the fragment's samples.
    pub default_sample_size: Option<u32>,
    /// Default flags of the fragment's samples.
    pub default_sample_flags: Option<u32>,
}

impl TfhdBox {
    /// Whether each optional field is present exactly when its flag is set.
    pub open spec fn consistent(&self) -> bool {
        let f = self.flags.0;
        &&& self.base_data_offset is Some == tfhd_has(f, 0x000001)
        &&& self.sample_description_index is Some == tfhd_has(f, 0x000002)
        &&& self.default_sample_duration is Some == tfhd_has(f, 0x000008)
        &&& self.default_sample_size is Some == tfhd_has(f, 0x000010)
        &&& self.default_sample_flags is Some == tfhd_has(f, 0x000020)
    }
}

impl BoxCodec for TfhdBox {
    open spec fn spec_boxtype(&self) -> BoxType {
        BoxType::TFHD
    }

    fn boxtype(&self) -> (r: BoxType) {
        BoxType::TFHD
    }
}

impl<'de> BoxDecode<'de> for TfhdBox {
    open spec fn spec_accepts(bytes: Seq<u8>) -> bool {
        bytes.len() >= 8 && bytes.len() >= tfhd_off(be24(bytes, 1), 5)
    }

    open spec fn spec_decodes(bytes: Seq<u8>, v: Self) -> bool {
        let f = be24(bytes, 1);
        &&& v.version == bytes[0]
        &&& v.flags.0 == f
        &&& v.track_id == be32(bytes, 4)
        &&& v.base_data_offset == (if tfhd_has(f, 0x000001) {
            Some(be64(bytes, 8))
        } else {
            None::<u64>
        })
        &&& v.sample_description_index == opt_be32(tfhd_has(f, 0x000002), bytes, tfhd_off(f, 1))
        &&& v.default_sample_duration == opt_be32(tfhd_has(f, 0x000008), bytes, tfhd_off(f, 2))
        &&& v.default_sample_size == opt_be32(tfhd_has(f, 0x000010), bytes, tfhd_off(f, 3))
        &&& v.default_sample_flags == opt_be32(tfhd_has(f, 0x000020), bytes, tfhd_off(f, 4))
    }

    fn decode(bytes: &'de [u8]) -> (r: Result<Self, Error>) {
        let mut cur = ReadCursor::new(bytes);
        let version = cur.read_u8()?;
        let flags = BoxFlags(cur.read_u24_be()?);
        let track_id = cur.read_u32_be()?;
        let ghost f = flags.0;
        let base_data_offset = if flags.contains(BoxFlags::BASE_DATA_OFFSET_PRESENT) {
            Some(cur.read_u64_be()?)
        } else {
            None
        };
        assert(cur.pos == tfhd_off(f, 1));
        let sample_description_index = if flags.contains(BoxFlags::SAMPLE_DESCRIPTION_INDEX_PRESENT) {
            Some(cur.read_u32_be()?)
        } else {
            None
        };
        assert(cur.pos == tfhd_off(f, 2));
        let default_sample_duration = if flags.contains(BoxFlags::DEFAULT_SAMPLE_DURATION_PRESENT) {
            Some(cur.read_u32_be()?)
        } else {
            None
        };
        assert(cur.pos == tfhd_off(f, 3));
        let default_sample_size = if flags.contains(BoxFlags::DEFAULT_SAMPLE_SIZE_PRESENT) {
            Some(cur.read_u32_be()?)
        } else {
            None
        };
        assert(cur.pos == tfhd_off(f, 4));
        let default_sample_flags = if flags.contains(BoxFlags::DEFAULT_SAMPLE_FLAGS_PRESENT) {
            Some(cur.read_u32_be()?)
        } else {
            None
        };
        assert(cur.pos == tfhd_off(f, 5));
        Ok(TfhdBox {
            version,
            flags,
            track_id,
            base_data_offset,
            sample_description_index,
            default_sample_duration,
            default_sample_size,
            default_sample_flags,
        })
    }
}

impl BoxEncode for TfhdBox {
    open spec fn spec_encode(&self) -> Seq<u8> {
        seq![self.version] + u24_bytes(self.flags.0) + u32_bytes(self.track_id) + opt_u64_bytes(self.base_data_offset)
            + opt_u32_bytes(self.sample_description_index) + opt_u32_bytes(self.default_sample_duration)
            + opt_u32_bytes(self.default_sample_size) + opt_u32_bytes(self.default_sample_flags)
    }

    open spec fn spec_encodable(&self) -> bool {
        true
    }

    fn encoded_len(&self) -> (r: usize) {
        let mut n: usize = 8;
        if self.base_data_offset.is_some() {
            n = n + 8;
        }
        if self.sample_description_index.is_some() {
            n = n + 4;
        }
        if self.default_sample_duration.is_some() {
            n = n + 4;
        }
        if self.default_sample_size.is_some() {
            n = n + 4;
        }
        if self.default_sample_flags.is_some() {
            n = n + 4;
        }
        n
    }

    fn encode_into(&self, bytes: &mut [u8]) -> (r: Result<usize, Error>) {
        let ghost s0 = bytes@;
        let need = self.encoded_len();
        if bytes.len() < need {
            return Err(short_buffer(need, bytes.len()));
        }
        let p = put_u8(bytes, 0, self.version)?;
        let p = put_u24(bytes, p, self.flags.0)?;
        proof {
            lemma_splice_concat(s0, 0, seq![self.version], u24_bytes(self.flags.0));
        }
        let ghost a = seq![self.version] + u24_bytes(self.flags.0);
        let p = put_u32(bytes, p, self.track_id)?;
        proof {
            lemma_splice_concat(s0, 0, a, u32_bytes(self.track_id));
            a = a + u32_bytes(self.track_id);
        }
        let p = match self.base_data_offset {
            Some(x) => {
                let q = put_u64(bytes, p, x)?;
                proof {
                    lemma_splice_concat(s0, 0, a, u64_bytes(x));
                }
                q
            },
            None => p,
        };
        proof {
            assert(a + opt_u64_bytes(self.base_data_offset) =~= (if self.base_data_offset is Some { a + u64_bytes(self.base_data_offset->0) } else { a }));
            a = a + opt_u64_bytes(self.base_data_offset);
        }
        let p = match self.sample_description_index {
            Some(x) => {
                let q = put_u32(bytes, p, x)?;
                proof {
                    lemma_splice_concat(s0, 0, a, u32_bytes(x));
                }
                q
            },
            None => p,
        };
        proof {
            assert(a + opt_u32_bytes(self.sample_description_index) =~= (if self.sample_description_index is Some { a + u32_bytes(self.sample_description_index->0) } else { a }));
            a = a + opt_u32_bytes(self.sample_description_index);
        }
        let p = match self.default_sample_duration {
            Some(x) => {
                let q = put_u32(bytes, p, x)?;
                proof {
                    lemma_splice_concat(s0, 0, a, u32_bytes(x));
                }
                q
            },
            None => p,
        };
        proof {
            assert(a + opt_u32_bytes(self.default_sample_duration) =~= (if self.default_sample_duration is Some { a + u32_bytes(self.default_sample_duration->0) } else { a }));
            a = a + opt_u32_bytes(self.default_sample_duration);
        }
        let p = match self.default_sample_size {
            Some(x) => {
                let q = put_u32(bytes, p, x)?;
                proof {
                    lemma_splice_concat(s0, 0, a, u32_bytes(x));
                }
                q
            },
            None => p,
        };
        proof {
            assert(a + opt_u32_bytes(self.default_sample_size) =~= (if self.default_sample_size is Some { a + u32_bytes(self.default_sample_size->0) } else { a }));
            a = a + opt_u32_bytes(self.default_sample_size);
        }
        let p = match self.default_sample_flags {
            Some(x) => {
                let q = put_u32(bytes, p, x)?;
                proof {
                    lemma_splice_concat(s0, 0, a, u32_bytes(x));
                }
                q
            },
            None => p,
        };
        proof {
            assert(a + opt_u32_bytes(self.default_sample_flags) =~= (if self.default_sample_flags is Some { a + u32_bytes(self.default_sample_flags->0) } else { a }));
            a = a + opt_u32_bytes(self.default_sample_flags);
            assert(a =~= self.spec_encode());
        }
        Ok(p)
    }
}

/// Decoding the encoding of a `tfhd` box gives the box back, when its optional
/// fields agree with its flags.
#[verifier::rlimit(40)]
#[verifier::spinoff_prover]
pub proof fn lemma_tfhd_roundtrip(b: TfhdBox)
    requires
        b.flags.wf(),
        b.consistent(),
    ensures
        TfhdBox::spec_accepts(b.spec_encode()),
        TfhdBox::spec_decodes(b.spec_encode(), b),
{
    let e = b.spec_encode();
    let f = b.flags.0;
    let o1 = opt_u64_bytes(b.base_data_offset);
    let o2 = opt_u32_bytes(b.sample_description_index);
    let o3 = opt_u32_bytes(b.default_sample_duration);
    let o4 = opt_u32_bytes(b.default_sample_size);
    let o5 = opt_u32_bytes(b.default_sample_flags);
    let p0 = seq![b.version] + u24_bytes(f) + u32_bytes(b.track_id);
    let p1 = p0 + o1;
    let p2 = p1 + o2;
    let p3 = p2 + o3;
    let p4 = p3 + o4;
    assert(e =~= p4 + o5);
    assert(p1.len() == tfhd_off(f, 1));
    assert(p2.len() == tfhd_off(f, 2));
    assert(p3.len() == tfhd_off(f, 3));
    assert(p4.len() == tfhd_off(f, 4));
    assert(e.len() == tfhd_off(f, 5));
    assert(e[0] == b.version);
    assert(be24(e, 1) == f) by {
        lemma_be24_at(seq![b.version], f, u32_bytes(b.track_id) + o1 + o2 + o3 + o4 + o5);
        assert(e =~= seq![b.version] + u24_bytes(f) + (u32_bytes(b.track_id) + o1 + o2 + o3 + o4 + o5));
    }
    assert(be32(e, 4) == b.track_id) by {
        lemma_be32_at(seq![b.version] + u24_bytes(f), b.track_id, o1 + o2 + o3 + o4 + o5);
        assert(e =~= seq![b.version] + u24_bytes(f) + u32_bytes(b.track_id) + (o1 + o2 + o3 + o4 + o5));
    }
    assert(e =~= p0 + o1 + (o2 + o3 + o4 + o5));
    lemma_opt64_field(e, p0, b.base_data_offset, o2 + o3 + o4 + o5);
    assert(e =~= p1 + o2 + (o3 + o4 + o5));
    lemma_opt32_field(e, p1, b.sample_description_index, o3 + o4 + o5, tfhd_has(f, 0x000002));
    assert(e =~= p2 + o3 + (o4 + o5));
    lemma_opt32_field(e, p2, b.default_sample_duration, o4 + o5, tfhd_has(f, 0x000008));
    assert(e =~= p3 + o4 + o5);
    lemma_opt32_field(e, p3, b.default_sample_size, o5, tfhd_has(f, 0x000010));
    assert(e =~= p4 + o5 + Seq::empty());
    lemma_opt32_field(e, p4, b.default_sample_flags, Seq::empty(), tfhd_has(f, 0x000020));
}

/// An optional 32-bit field stands after `pre` exactly when it is present.
proof fn lemma_opt32_field(e: Seq<u8>, pre: Seq<u8>, o: Option<u32>, post: Seq<u8>, present: bool)
    requires
        e == pre + opt_u32_bytes(o) + post,
        (o is Some) == present,
    ensures
        opt_be32(present, e, pre.len() as int) == o,
{
    if let Some(x) = o {
        lemma_be32_at(pre, x, post);
    }
}

/// An optional 64-bit field stands after `pre` when it is present.
proof fn lemma_opt64_field(e: Seq<u8>, pre: Seq<u8>, o: Option<u64>, post: Seq<u8>)
    requires
        e == pre + opt_u64_bytes(o) + post,
    ensures
        o matches Some(x) ==> be64(e, pre.len() as int) == x,
{
    if let Some(x) = o {
        lemma_be64_at(pre, x, post);
    }
}

/// The layout of a `tfhd` payload: version, flags and track id, then in this
/// order each optional field whose flag is set: base data offset (8 bytes,
/// flag 0x1), sample description index (0x2), default sample duration (0x8),
/// default sample size (0x10) and default sample flags (0x20), four bytes each.
pub proof fn lemma_tfhd_box_layout(bytes: Seq<u8>, v: TfhdBox)
    requires
        TfhdBox::spec_decodes(bytes, v),
    ensures
        ({
            let f = be24(bytes, 1);
            let o1 = 8 + (if BoxFlags::has(f, 0x000001) { 8int } else { 0 });
            let o2 = o1 + (if BoxFlags::has(f, 0x000002) { 4int } else { 0 });
            let o3 = o2 + (if BoxFlags::has(f, 0x000008) { 4int } else { 0 });
            let o4 = o3 + (if BoxFlags::has(f, 0x000010) { 4int } else { 0 });
            &&& v.version == bytes[0]
            &&& v.flags.0 == f
            &&& v.track_id == be32(bytes, 4)
            &&& v.base_data_offset == (if BoxFlags::has(f, 0x000001) { Some(be64(bytes, 8)) } else { None::<u64> })
            &&& v.sample_description_index == (if BoxFlags::has(f, 0x000002) { Some(be32(bytes, o1)) } else { None::<u32> })
            &&& v.default_sample_duration == (if BoxFlags::has(f, 0x000008) { Some(be32(bytes, o2)) } else { None::<u32> })
            &&& v.default_sample_size == (if BoxFlags::has(f, 0x000010) { Some(be32(bytes, o3)) } else { None::<u32> })
            &&& v.default_sample_flags == (if BoxFlags::has(f, 0x000020) { Some(be32(bytes, o4)) } else { None::<u32> })
        }),
{
}

} // verus!
