//! Handler Reference Box (`hdlr`): the media handler of a track and its name.
use vstd::prelude::*;

use vstd::string::StringSliceAdditionalSpecFns;
use vstd::utf8::{decode_utf8, encode_utf8, valid_utf8, decode_utf8_encode_utf8, encode_utf8_decode_utf8, encode_utf8_valid_utf8};

use crate::bytes::{be24, be32, u24_bytes, u32_bytes, lemma_be24_in, lemma_be32_in};
use crate::codec::{BoxCodec, BoxDecode, BoxEncode, short_buffer};
use crate::cursor::{put_slice, put_u8, put_u24, put_u32, put_zeros, lemma_splice_concat, ReadCursor};
use crate::error::{Error, ErrorKind};
use crate::flags::{BoxFlags, HdlrFlags};
use crate::text::{first_nul, spec_first_nul, str_from_utf8, lemma_first_nul_after};
use crate::types::{BoxType, FourCC};

verus! {

/// The bytes of the name in an `hdlr` payload: from offset 24 up to the first
/// zero byte after it.
pub open spec fn hdlr_name_bytes(bytes: Seq<u8>) -> Seq<u8> {
    let t = bytes.skip(24);
    t.take(spec_first_nul(t)->0)
}

/// The payloads an `hdlr` box accepts: the fixed fields, then a name that is
/// valid UTF-8 and ends with a zero byte.
pub open spec fn hdlr_accepts(bytes: Seq<u8>) -> bool {
    &&& bytes.len() >= 24
    &&& spec_first_nul(bytes.skip(24)) is Some
    &&& valid_utf8(hdlr_name_bytes(bytes))
}

/// Handler Reference Box (`hdlr`) over a byte slice.
#[derive(Debug)]
pub struct HdlrBoxView<'a> {
    /// Box version.
    pub version: u8,
    /// Box flags.
    pub flags: HdlrFlags,
    /// The handler type, such as `vide` or `soun`.
    pub handler_type: FourCC,
    /// A human-readable name of the track type.
    pub name: &'a str,
}

impl<'a> HdlrBoxView<'a> {
    /// An owned copy of this box.
    pub fn to_owned(&self) -> (r: HdlrBox)
        ensures
            r.version == self.version,
            r.flags == self.flags,
            r.handler_type == self.handler_type,
            r.name@ == self.name@,
    {
        HdlrBox::from(self)
    }
}

impl BoxCodec for HdlrBoxView<'_> {
    open spec fn spec_boxtype(&self) -> BoxType {
        BoxType::HDLR
    }

    fn boxtype(&self) -> (r: BoxType) {
        BoxType::HDLR
    }
}

impl<'de> BoxDecode<'de> for HdlrBoxView<'de> {
    open spec fn spec_accepts(bytes: Seq<u8>) -> bool {
        hdlr_accepts(bytes)
    }

    open spec fn spec_decodes(bytes: Seq<u8>, v: Self) -> bool {
        &&& v.version == bytes[0]
        &&& v.flags.0 == be24(bytes, 1)
        &&& v.handler_type.0 == be32(bytes, 8)
        &&& v.name.spec_bytes() == hdlr_name_bytes(bytes)
    }

    fn decode(bytes: &'de [u8]) -> (r: Result<Self, Error>) {
        let mut cur = ReadCursor::new(bytes);
        let version = cur.read_u8()?;
        let flags = BoxFlags(cur.read_u24_be()?);
        cur.advance(4)?;
        let handler_type = cur.read_fourcc()?;
        cur.advance(12)?;
        let rest = cur.remaining_slice();
        assert(rest@ =~= bytes@.skip(24));
        let n = match first_nul(rest) {
            Some(n) => n,
            None => {
                return Err(Error::at_in_box(ErrorKind::NotEnoughBytes { expected: 1, remaining: 0 }, cur.position() as u64, BoxType::HDLR));
            },
        };
        assert(spec_first_nul(bytes@.skip(24)) == Some(n as int));
        let name_bytes = &rest[0..n];
        assert(name_bytes@ =~= hdlr_name_bytes(bytes@));
        let name = match str_from_utf8(name_bytes) {
            Some(s) => s,
            None => {
                return Err(Error::in_box(ErrorKind::InvalidBoxField { field: "name", reason: "invalid UTF-8" }, BoxType::HDLR));
            },
        };
        Ok(HdlrBoxView { version, flags, handler_type, name })
    }
}

/// Handler Reference Box (`hdlr`) with its name in a `String`.
#[derive(Debug, Clone)]
pub struct HdlrBox {
    /// Box version.
    pub version: u8,
    /// Box flags.
    pub flags: HdlrFlags,
    /// The handler type, such as `vide` or `soun`.
    pub handler_type: FourCC,
    /// A human-readable name of the track type.
    pub name: String,
}

impl HdlrBox {
    /// The owned box holding the fields of a view.
    pub fn from(view: &HdlrBoxView<'_>) -> (r: HdlrBox)
        ensures
            r.version == view.version,
            r.flags == view.flags,
            r.handler_type == view.handler_type,
            r.name@ == view.name@,
    {
        HdlrBox { version: view.version, flags: view.flags, handler_type: view.handler_type, name: view.name.to_owned() }
    }
}

impl BoxCodec for HdlrBox {
    open spec fn spec_boxtype(&self) -> BoxType {
        BoxType::HDLR
    }

    fn boxtype(&self) -> (r: BoxType) {
        BoxType::HDLR
    }
}

impl<'de> BoxDecode<'de> for HdlrBox {
    open spec fn spec_accepts(bytes: Seq<u8>) -> bool {
        hdlr_accepts(bytes)
    }

    open spec fn spec_decodes(bytes: Seq<u8>, v: Self) -> bool {
        &&& v.version == bytes[0]
        &&& v.flags.0 == be24(bytes, 1)
        &&& v.handler_type.0 == be32(bytes, 8)
        &&& v.name@ == decode_utf8(hdlr_name_bytes(bytes))
    }

    fn decode(bytes: &'de [u8]) -> (r: Result<Self, Error>) {
        let view = HdlrBoxView::decode(bytes)?;
        proof {
            encode_utf8_decode_utf8(view.name@);
        }
        Ok(HdlrBox::from(&view))
    }
}

impl BoxEncode for HdlrBox {
    open spec fn spec_encode(&self) -> Seq<u8> {
        seq![self.version] + u24_bytes(self.flags.0) + Seq::new(4, |i: int| 0u8) + u32_bytes(self.handler_type.0)
            + Seq::new(12, |i: int| 0u8) + encode_utf8(self.name@) + seq![0u8]
    }

    open spec fn spec_encodable(&self) -> bool {
        self.flags.0 < 0x100_0000 && 25 + encode_utf8(self.name@).len() <= usize::MAX
    }

    fn encoded_len(&self) -> (r: usize) {
        let n = self.name.as_str().as_bytes().len();
        if n > usize::MAX - 25 {
            usize::MAX
        } else {
            25 + n
        }
    }

    fn encode_into(&self, bytes: &mut [u8]) -> (r: Result<usize, Error>) {
        let ghost s0 = bytes@;
        let name = self.name.as_str().as_bytes();
        if self.flags.0 >= 0x100_0000 {
            return Err(Error::in_box(ErrorKind::InvalidBoxFlags { reason: "flags do not fit in 24 bits", got: self.flags.0 }, BoxType::HDLR));
        }
        if bytes.len() < 25 || bytes.len() - 25 < name.len() {
            return Err(short_buffer(25 + (if name.len() > usize::MAX - 25 { 0 } else { name.len() }), bytes.len()));
        }
        let ghost z4 = Seq::new(4, |i: int| 0u8);
        let ghost z12 = Seq::new(12, |i: int| 0u8);
        let p = put_u8(bytes, 0, self.version)?;
        let p = put_u24(bytes, p, self.flags.0)?;
        proof {
            lemma_splice_concat(s0, 0, seq![self.version], u24_bytes(self.flags.0));
        }
        let ghost a1 = seq![self.version] + u24_bytes(self.flags.0);
        let p = put_zeros(bytes, p, 4)?;
        proof {
            lemma_splice_concat(s0, 0, a1, z4);
        }
        let ghost a2 = a1 + z4;
        let p = put_u32(bytes, p, self.handler_type.0)?;
        proof {
            lemma_splice_concat(s0, 0, a2, u32_bytes(self.handler_type.0));
        }
        let ghost a3 = a2 + u32_bytes(self.handler_type.0);
        let p = put_zeros(bytes, p, 12)?;
        proof {
            lemma_splice_concat(s0, 0, a3, z12);
        }
        let ghost a4 = a3 + z12;
        let p = put_slice(bytes, p, name)?;
        proof {
            lemma_splice_concat(s0, 0, a4, name@);
        }
        let ghost a5 = a4 + name@;
        let p = put_u8(bytes, p, 0)?;
        proof {
            lemma_splice_concat(s0, 0, a5, seq![0u8]);
            assert(a5 + seq![0u8] =~= self.spec_encode());
        }
        Ok(p)
    }
}

/// Decoding the encoding of an `hdlr` box gives the box back, when the bytes
/// of its name hold no zero byte.
pub proof fn lemma_hdlr_roundtrip(b: HdlrBox)
    requires
        b.spec_encodable(),
        !encode_utf8(b.name@).contains(0u8),
    ensures
        HdlrBox::spec_accepts(b.spec_encode()),
        HdlrBox::spec_decodes(b.spec_encode(), b),
{
    let e = b.spec_encode();
    let nb = encode_utf8(b.name@);
    assert(e.skip(24) =~= nb + seq![0u8] + Seq::<u8>::empty());
    lemma_first_nul_after(nb, Seq::<u8>::empty());
    assert(hdlr_name_bytes(e) =~= nb);
    encode_utf8_valid_utf8(b.name@);
    encode_utf8_decode_utf8(b.name@);
    assert(e.subrange(0, 1) =~= seq![b.version]);
    assert(e[0] == e.subrange(0, 1)[0]);
    assert(e.subrange(1, 4) =~= u24_bytes(b.flags.0));
    lemma_be24_in(e, 1, b.flags.0);
    assert(e.subrange(8, 12) =~= u32_bytes(b.handler_type.0));
    lemma_be32_in(e, 8, b.handler_type.0);
}

/// The layout of an `hdlr` payload: version and flags, four reserved bytes,
/// the handler type at 8, twelve reserved bytes, then the name up to its first
/// zero byte.
pub proof fn lemma_hdlr_view_layout<'a>(bytes: Seq<u8>, v: HdlrBoxView<'a>)
    requires
        HdlrBoxView::spec_decodes(bytes, v),
    ensures
        v.version == bytes[0],
        v.flags.0 == be24(bytes, 1),
        v.handler_type.0 == be32(bytes, 8),
        v.name.spec_bytes() == bytes.skip(24).take(spec_first_nul(bytes.skip(24))->0),
{
}

} // verus!
