//! File Type Box (`ftyp`): the brands a file conforms to.
use vstd::prelude::*;

use crate::bytes::{be32, u32_bytes, lemma_u32_bytes_of, lemma_be32_in};
use crate::codec::{BoxCodec, BoxDecode, BoxEncode, short_buffer};
use crate::cursor::{put_u32, lemma_splice_concat, ReadCursor};
use crate::entries::{spec_entries, spec_entries_bytes, read_entries, write_entries, lemma_entries_bytes_len, lemma_entries_roundtrip, lemma_entries_reencode};
use crate::error::{Error, ErrorKind};
use crate::types::{BoxType, FourCC};

verus! {

/// File Type Box (`ftyp`) over a byte slice.
#[derive(Debug)]
pub struct FtypBoxView<'a> {
    /// The brand the file is best used with.
    pub major_brand: FourCC,
    /// An informative version number of the major brand.
    pub minor_version: u32,
    /// The bytes of the compatible brands, four per brand.
    pub compatible_brands: &'a [u8],
}

impl<'a> FtypBoxView<'a> {
    /// The compatible brands, in order.
    pub fn compatible_brands(&self) -> (r: Vec<FourCC>)
        ensures
            r@ == spec_entries::<FourCC>(self.compatible_brands@),
    {
        read_entries(self.compatible_brands)
    }

    /// An owned copy of this box.
    pub fn to_owned(&self) -> (r: FtypBox)
        ensures
            r.major_brand == self.major_brand,
            r.minor_version == self.minor_version,
            r.compatible_brands@ == spec_entries::<FourCC>(self.compatible_brands@),
    {
        FtypBox::from(self)
    }
}

impl BoxCodec for FtypBoxView<'_> {
    open spec fn spec_boxtype(&self) -> BoxType {
        BoxType::FTYP
    }

    fn boxtype(&self) -> (r: BoxType) {
        BoxType::FTYP
    }
}

impl<'de> BoxDecode<'de> for FtypBoxView<'de> {
    open spec fn spec_accepts(bytes: Seq<u8>) -> bool {
        bytes.len() >= 8 && (bytes.len() - 8) % 4 == 0
    }

    open spec fn spec_decodes(bytes: Seq<u8>, v: Self) -> bool {
        &&& v.major_brand.0 == be32(bytes, 0)
        &&& v.minor_version == be32(bytes, 4)
        &&& v.compatible_brands@ == bytes.skip(8)
    }

    fn decode(bytes: &'de [u8]) -> (r: Result<Self, Error>) {
        let mut cur = ReadCursor::new(bytes);
        let major_brand = cur.read_fourcc()?;
        let minor_version = cur.read_u32_be()?;
        let remaining = cur.remaining();
        if remaining % 4 != 0 {
            return Err(Error::at_in_box(ErrorKind::InvalidBoxSize { reason: "Compatible brands length is not a multiple of 4", got: remaining as u64 }, cur.position() as u64, BoxType::FTYP));
        }
        let compatible_brands = cur.take(remaining)?;
        assert(compatible_brands@ =~= bytes@.skip(8));
        Ok(FtypBoxView { major_brand, minor_version, compatible_brands })
    }
}

/// File Type Box (`ftyp`) with its compatible brands in a vector.
#[derive(Debug, Clone)]
pub struct FtypBox {
    /// The brand the file is best used with.
    pub major_brand: FourCC,
    /// An informative version number of the major brand.
    pub minor_version: u32,
    /// The brands the file is compatible with.
    pub compatible_brands: Vec<FourCC>,
}

impl FtypBox {
    /// The owned box holding the brands of a view.
    pub fn from(view: &FtypBoxView<'_>) -> (r: FtypBox)
        ensures
            r.major_brand == view.major_brand,
            r.minor_version == view.minor_version,
            r.compatible_brands@ == spec_entries::<FourCC>(view.compatible_brands@),
    {
        FtypBox { major_brand: view.major_brand, minor_version: view.minor_version, compatible_brands: view.compatible_brands() }
    }
}

impl BoxCodec for FtypBox {
    open spec fn spec_boxtype(&self) -> BoxType {
        BoxType::FTYP
    }

    fn boxtype(&self) -> (r: BoxType) {
        BoxType::FTYP
    }
}

impl<'de> BoxDecode<'de> for FtypBox {
    open spec fn spec_accepts(bytes: Seq<u8>) -> bool {
        bytes.len() >= 8 && (bytes.len() - 8) % 4 == 0
    }

    open spec fn spec_decodes(bytes: Seq<u8>, v: Self) -> bool {
        &&& v.major_brand.0 == be32(bytes, 0)
        &&& v.minor_version == be32(bytes, 4)
        &&& v.compatible_brands@ == spec_entries::<FourCC>(bytes.skip(8))
    }

    fn decode(bytes: &'de [u8]) -> (r: Result<Self, Error>) {
        let view = FtypBoxView::decode(bytes)?;
        Ok(FtypBox::from(&view))
    }
}

impl BoxEncode for FtypBox {
    open spec fn spec_encode(&self) -> Seq<u8> {
        u32_bytes(self.major_brand.0) + u32_bytes(self.minor_version) + spec_entries_bytes(self.compatible_brands@)
    }

    open spec fn spec_encodable(&self) -> bool {
        8 + self.compatible_brands@.len() * 4 <= usize::MAX
    }

    fn encoded_len(&self) -> (r: usize) {
        proof {
            lemma_entries_bytes_len(self.compatible_brands@);
        }
        if self.compatible_brands.len() > (usize::MAX - 8) / 4 {
            usize::MAX
        } else {
            8 + self.compatible_brands.len() * 4
        }
    }

    fn encode_into(&self, bytes: &mut [u8]) -> (r: Result<usize, Error>) {
        let ghost s0 = bytes@;
        proof {
            lemma_entries_bytes_len(self.compatible_brands@);
        }
        if bytes.len() < 8 || (bytes.len() - 8) / 4 < self.compatible_brands.len() {
            return Err(short_buffer(8, bytes.len()));
        }
        let p = put_u32(bytes, 0, self.major_brand.0)?;
        let p = put_u32(bytes, p, self.minor_version)?;
        proof {
            lemma_splice_concat(s0, 0, u32_bytes(self.major_brand.0), u32_bytes(self.minor_version));
        }
        let q = write_entries(bytes, p, &self.compatible_brands);
        proof {
            lemma_splice_concat(s0, 0, u32_bytes(self.major_brand.0) + u32_bytes(self.minor_version), spec_entries_bytes(self.compatible_brands@));
        }
        Ok(q)
    }
}

/// Decoding the encoding of a `ftyp` box gives the box back.
pub proof fn lemma_ftyp_roundtrip(b: FtypBox)
    requires
        b.spec_encodable(),
    ensures
        FtypBox::spec_accepts(b.spec_encode()),
        FtypBox::spec_decodes(b.spec_encode(), b),
{
    let e = b.spec_encode();
    lemma_entries_bytes_len(b.compatible_brands@);
    lemma_entries_roundtrip(b.compatible_brands@);
    assert(e.subrange(0, 4) =~= u32_bytes(b.major_brand.0));
    lemma_be32_in(e, 0, b.major_brand.0);
    assert(e.subrange(4, 8) =~= u32_bytes(b.minor_version));
    lemma_be32_in(e, 4, b.minor_version);
    assert(e.skip(8) =~= spec_entries_bytes(b.compatible_brands@));
}

/// Encoding the box decoded from a payload gives the payload back.
pub proof fn lemma_ftyp_reencode(s: Seq<u8>, b: FtypBox)
    requires
        FtypBox::spec_accepts(s),
        FtypBox::spec_decodes(s, b),
    ensures
        b.spec_encode() == s,
{
    lemma_entries_reencode::<FourCC>(s.skip(8), ((s.len() - 8) / 4) as nat);
    lemma_u32_bytes_of(s, 0);
    lemma_u32_bytes_of(s, 4);
    assert(b.spec_encode() =~= s);
}

/// The layout of a `ftyp` payload: what a view of `ftyp` box decoded from
/// `bytes` holds, field by field, read at fixed offsets.
pub proof fn lemma_ftyp_box_view_layout<'a>(bytes: Seq<u8>, v: FtypBoxView<'a>)
    requires
        FtypBoxView::spec_decodes(bytes, v),
    ensures
        v.major_brand.0 == be32(bytes, 0),
        v.minor_version == be32(bytes, 4),
        v.compatible_brands@ == bytes.skip(8),
{
}

/// The layout of a `ftyp` payload: what an owned `ftyp` box decoded from
/// `bytes` holds, field by field, read at fixed offsets.
pub proof fn lemma_ftyp_box_layout(bytes: Seq<u8>, v: FtypBox)
    requires
        FtypBox::spec_decodes(bytes, v),
    ensures
        v.major_brand.0 == be32(bytes, 0),
        v.minor_version == be32(bytes, 4),
        v.compatible_brands@ == spec_entries::<FourCC>(bytes.skip(8)),
{
}

} // verus!
