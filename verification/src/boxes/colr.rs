//! Colour Information Box (`colr`): the colour space of a video track, as
//! `nclx` parameters or an ICC profile.
use vstd::prelude::*;

use crate::bytes::{be16, be32, u16_bytes, u32_bytes, lemma_be16_at, lemma_be32_at};
use crate::codec::{BoxCodec, BoxDecode, BoxEncode, short_buffer};
use crate::cursor::{put_slice, put_u8, put_u16, put_u32, lemma_splice_concat, ReadCursor};
use crate::error::{Error, ErrorKind};
use crate::types::BoxType;

verus! {

/// The code of the `nclx` colour type.
pub const NCLX: u32 = 0x6e636c78;
/// The code of the `rICC` colour type.
pub const RICC: u32 = 0x72494343;
/// The code of the `prof` colour type.
pub const PROF: u32 = 0x70726f66;

/// The colour information of a `colr` box; `T` holds an ICC profile.
#[derive(Debug, Clone)]
pub enum ColourType<T> {
    /// Colour parameters of ISO/IEC 23091-2.
    Nclx {
        /// Colour primaries.
        colour_primaries: u16,
        /// Transfer characteristics.
        transfer_characteristics: u16,
        /// Matrix coefficients.
        matrix_coefficients: u16,
        /// Whether the full range of sample values is used.
        full_range_flag: bool,
    },
    /// A restricted ICC profile.
    RestrictedICC {
        /// The profile bytes.
        icc_profile: T,
    },
    /// An unrestricted ICC profile.
    UnrestrictedICC {
        /// The profile bytes.
        icc_profile: T,
    },
}

/// The payloads a `colr` box accepts: a known colour type, and for `nclx`
/// seven more bytes at least.
pub open spec fn colr_accepts(bytes: Seq<u8>) -> bool {
    &&& bytes.len() >= 4
    &&& (be32(bytes, 0) == NCLX || be32(bytes, 0) == RICC || be32(bytes, 0) == PROF)
    &&& be32(bytes, 0) == NCLX ==> bytes.len() >= 11
}

/// Whether `c` is the colour information of the payload `bytes`, the profile
/// bytes being `profile` when there is one.
pub open spec fn colr_matches<T>(bytes: Seq<u8>, c: ColourType<T>, profile: spec_fn(T) -> Seq<u8>) -> bool {
    match c {
        ColourType::Nclx { colour_primaries, transfer_characteristics, matrix_coefficients, full_range_flag } => {
            &&& be32(bytes, 0) == NCLX
            &&& colour_primaries == be16(bytes, 4)
            &&& transfer_characteristics == be16(bytes, 6)
            &&& matrix_coefficients == be16(bytes, 8)
            &&& full_range_flag == (bytes[10] >= 0x80)
        },
        ColourType::RestrictedICC { icc_profile } => be32(bytes, 0) == RICC && profile(icc_profile) == bytes.skip(4),
        ColourType::UnrestrictedICC { icc_profile } => be32(bytes, 0) == PROF && profile(icc_profile) == bytes.skip(4),
    }
}

/// Whether two colour informations agree, the profile bytes of the one in a
/// slice and of the other in a vector.
pub open spec fn colour_same(a: ColourType<&[u8]>, b: ColourType<Vec<u8>>) -> bool {
    match (a, b) {
        (ColourType::Nclx { colour_primaries: a1, transfer_characteristics: a2, matrix_coefficients: a3, full_range_flag: a4 },
         ColourType::Nclx { colour_primaries: b1, transfer_characteristics: b2, matrix_coefficients: b3, full_range_flag: b4 }) =>
            a1 == b1 && a2 == b2 && a3 == b3 && a4 == b4,
        (ColourType::RestrictedICC { icc_profile: p }, ColourType::RestrictedICC { icc_profile: q }) => p@ == q@,
        (ColourType::UnrestrictedICC { icc_profile: p }, ColourType::UnrestrictedICC { icc_profile: q }) => p@ == q@,
        _ => false,
    }
}

/// Colour Information Box (`colr`) over a byte slice.
#[derive(Debug, Clone)]
pub struct ColrBoxView<'a> {
    /// The colour information.
    pub colour_type: ColourType<&'a [u8]>,
}

impl BoxCodec for ColrBoxView<'_> {
    open spec fn spec_boxtype(&self) -> BoxType {
        BoxType::COLR
    }

    fn boxtype(&self) -> (r: BoxType) {
        BoxType::COLR
    }
}

impl<'de> BoxDecode<'de> for ColrBoxView<'de> {
    open spec fn spec_accepts(bytes: Seq<u8>) -> bool {
        colr_accepts(bytes)
    }

    open spec fn spec_decodes(bytes: Seq<u8>, v: Self) -> bool {
        colr_matches(bytes, v.colour_type, |p: &'de [u8]| p@)
    }

    fn decode(bytes: &'de [u8]) -> (r: Result<Self, Error>) {
        assert(Self::spec_accepts(bytes@) == colr_accepts(bytes@));
        assert(forall|v: Self| #[trigger] Self::spec_decodes(bytes@, v) == colr_matches(bytes@, v.colour_type, |p: &'de [u8]| p@));
        let mut cur = ReadCursor::new(bytes);
        let code = cur.read_u32_be()?;
        if code == NCLX {
            let colour_primaries = cur.read_u16_be()?;
            let transfer_characteristics = cur.read_u16_be()?;
            let matrix_coefficients = cur.read_u16_be()?;
            let flag = cur.read_u8()?;
            Ok(ColrBoxView {
                colour_type: ColourType::Nclx { colour_primaries, transfer_characteristics, matrix_coefficients, full_range_flag: flag >= 0x80 },
            })
        } else if code == RICC || code == PROF {
            let n = cur.remaining();
            let icc_profile = cur.take(n)?;
            assert(icc_profile@ =~= bytes@.skip(4));
            if code == RICC {
                Ok(ColrBoxView { colour_type: ColourType::RestrictedICC { icc_profile } })
            } else {
                Ok(ColrBoxView { colour_type: ColourType::UnrestrictedICC { icc_profile } })
            }
        } else {
            Err(Error::in_box(ErrorKind::InvalidBoxField { field: "colour_type", reason: "The defined colour types are 'nclx', 'rICC', and 'prof'" }, BoxType::COLR))
        }
    }
}

/// Colour Information Box (`colr`) with its profile in a vector.
#[derive(Debug, Clone)]
pub struct ColrBox {
    /// The colour information.
    pub colour_type: ColourType<Vec<u8>>,
}

impl ColrBox {
    /// The owned box of a view.
    pub fn try_from(view: &ColrBoxView<'_>) -> (r: Result<ColrBox, Error>)
        ensures
            r matches Ok(b) && colour_same(view.colour_type, b.colour_type),
    {
        let colour_type = match &view.colour_type {
            ColourType::Nclx { colour_primaries, transfer_characteristics, matrix_coefficients, full_range_flag } => ColourType::Nclx {
                colour_primaries: *colour_primaries,
                transfer_characteristics: *transfer_characteristics,
                matrix_coefficients: *matrix_coefficients,
                full_range_flag: *full_range_flag,
            },
            ColourType::RestrictedICC { icc_profile } => ColourType::RestrictedICC { icc_profile: vstd::slice::slice_to_vec(icc_profile) },
            ColourType::UnrestrictedICC { icc_profile } => ColourType::UnrestrictedICC { icc_profile: vstd::slice::slice_to_vec(icc_profile) },
        };
        Ok(ColrBox { colour_type })
    }
}

impl BoxCodec for ColrBox {
    open spec fn spec_boxtype(&self) -> BoxType {
        BoxType::COLR
    }

    fn boxtype(&self) -> (r: BoxType) {
        BoxType::COLR
    }
}

impl<'de> BoxDecode<'de> for ColrBox {
    open spec fn spec_accepts(bytes: Seq<u8>) -> bool {
        colr_accepts(bytes)
    }

    open spec fn spec_decodes(bytes: Seq<u8>, v: Self) -> bool {
        colr_matches(bytes, v.colour_type, |p: Vec<u8>| p@)
    }

    fn decode(bytes: &'de [u8]) -> (r: Result<Self, Error>) {
        let view = ColrBoxView::decode(bytes)?;
        ColrBox::try_from(&view)
    }
}

impl BoxEncode for ColrBox {
    open spec fn spec_encode(&self) -> Seq<u8> {
        match self.colour_type {
            ColourType::Nclx { colour_primaries, transfer_characteristics, matrix_coefficients, full_range_flag } =>
                u32_bytes(NCLX) + u16_bytes(colour_primaries) + u16_bytes(transfer_characteristics) + u16_bytes(matrix_coefficients)
                    + seq![if full_range_flag { 0x80u8 } else { 0u8 }],
            ColourType::RestrictedICC { icc_profile } => u32_bytes(RICC) + icc_profile@,
            ColourType::UnrestrictedICC { icc_profile } => u32_bytes(PROF) + icc_profile@,
        }
    }

    open spec fn spec_encodable(&self) -> bool {
        self.spec_encode().len() <= usize::MAX
    }

    fn encoded_len(&self) -> (r: usize) {
        match &self.colour_type {
            ColourType::Nclx { .. } => 11,
            ColourType::RestrictedICC { icc_profile } => if icc_profile.len() > usize::MAX - 4 { usize::MAX } else { 4 + icc_profile.len() },
            ColourType::UnrestrictedICC { icc_profile } => if icc_profile.len() > usize::MAX - 4 { usize::MAX } else { 4 + icc_profile.len() },
        }
    }

    fn encode_into(&self, bytes: &mut [u8]) -> (r: Result<usize, Error>) {
        let ghost s0 = bytes@;
        match &self.colour_type {
            ColourType::Nclx { colour_primaries, transfer_characteristics, matrix_coefficients, full_range_flag } => {
                if bytes.len() < 11 {
                    return Err(short_buffer(11, bytes.len()));
                }
                let p = put_u32(bytes, 0, NCLX)?;
                let p = put_u16(bytes, p, *colour_primaries)?;
                proof {
                    lemma_splice_concat(s0, 0, u32_bytes(NCLX), u16_bytes(*colour_primaries));
                }
                let ghost a = u32_bytes(NCLX) + u16_bytes(*colour_primaries);
                let p = put_u16(bytes, p, *transfer_characteristics)?;
                proof {
                    lemma_splice_concat(s0, 0, a, u16_bytes(*transfer_characteristics));
                    a = a + u16_bytes(*transfer_characteristics);
                }
                let p = put_u16(bytes, p, *matrix_coefficients)?;
                proof {
                    lemma_splice_concat(s0, 0, a, u16_bytes(*matrix_coefficients));
                    a = a + u16_bytes(*matrix_coefficients);
                }
                let f: u8 = if *full_range_flag { 0x80 } else { 0 };
                let p = put_u8(bytes, p, f)?;
                proof {
                    lemma_splice_concat(s0, 0, a, seq![f]);
                }
                Ok(p)
            },
            ColourType::RestrictedICC { icc_profile } => {
                if bytes.len() < 4 || bytes.len() - 4 < icc_profile.len() {
                    return Err(short_buffer(4, bytes.len()));
                }
                let p = put_u32(bytes, 0, RICC)?;
                let p = put_slice(bytes, p, icc_profile.as_slice())?;
                proof {
                    lemma_splice_concat(s0, 0, u32_bytes(RICC), icc_profile@);
                }
                Ok(p)
            },
            ColourType::UnrestrictedICC { icc_profile } => {
                if bytes.len() < 4 || bytes.len() - 4 < icc_profile.len() {
                    return Err(short_buffer(4, bytes.len()));
                }
                let p = put_u32(bytes, 0, PROF)?;
                let p = put_slice(bytes, p, icc_profile.as_slice())?;
                proof {
                    lemma_splice_concat(s0, 0, u32_bytes(PROF), icc_profile@);
                }
                Ok(p)
            },
        }
    }
}

/// Decoding the encoding of a `colr` box gives the box back.
pub proof fn lemma_colr_roundtrip(b: ColrBox)
    requires
        b.spec_encodable(),
    ensures
        ColrBox::spec_accepts(b.spec_encode()),
        ColrBox::spec_decodes(b.spec_encode(), b),
{
    let e = b.spec_encode();
    match b.colour_type {
        ColourType::Nclx { colour_primaries, transfer_characteristics, matrix_coefficients, full_range_flag } => {
            let f = if full_range_flag { 0x80u8 } else { 0u8 };
            lemma_be32_at(Seq::empty(), NCLX, u16_bytes(colour_primaries) + u16_bytes(transfer_characteristics) + u16_bytes(matrix_coefficients) + seq![f]);
            assert(e =~= Seq::<u8>::empty() + u32_bytes(NCLX) + (u16_bytes(colour_primaries) + u16_bytes(transfer_characteristics) + u16_bytes(matrix_coefficients) + seq![f]));
            lemma_be16_at(u32_bytes(NCLX), colour_primaries, u16_bytes(transfer_characteristics) + u16_bytes(matrix_coefficients) + seq![f]);
            assert(e =~= u32_bytes(NCLX) + u16_bytes(colour_primaries) + (u16_bytes(transfer_characteristics) + u16_bytes(matrix_coefficients) + seq![f]));
            lemma_be16_at(u32_bytes(NCLX) + u16_bytes(colour_primaries), transfer_characteristics, u16_bytes(matrix_coefficients) + seq![f]);
            assert(e =~= u32_bytes(NCLX) + u16_bytes(colour_primaries) + u16_bytes(transfer_characteristics) + (u16_bytes(matrix_coefficients) + seq![f]));
            lemma_be16_at(u32_bytes(NCLX) + u16_bytes(colour_primaries) + u16_bytes(transfer_characteristics), matrix_coefficients, seq![f]);
            assert(e[10] == f);
        },
        ColourType::RestrictedICC { icc_profile } => {
            lemma_be32_at(Seq::empty(), RICC, icc_profile@);
            assert(e =~= Seq::<u8>::empty() + u32_bytes(RICC) + icc_profile@);
            assert(e.skip(4) =~= icc_profile@);
        },
        ColourType::UnrestrictedICC { icc_profile } => {
            lemma_be32_at(Seq::empty(), PROF, icc_profile@);
            assert(e =~= Seq::<u8>::empty() + u32_bytes(PROF) + icc_profile@);
            assert(e.skip(4) =~= icc_profile@);
        },
    }
}

/// The layout of a `colr` payload: the colour type code (`nclx`, `rICC` or
/// `prof`) in the first four bytes; for `nclx` the colour primaries, transfer
/// characteristics and matrix coefficients as 16-bit values at 4, 6 and 8 and
/// the full range flag in the top bit of byte 10; for the ICC types the
/// profile in the rest of the payload.
pub proof fn lemma_colr_box_layout(bytes: Seq<u8>, v: ColrBox)
    requires
        ColrBox::spec_decodes(bytes, v),
    ensures
        match v.colour_type {
            ColourType::Nclx { colour_primaries, transfer_characteristics, matrix_coefficients, full_range_flag } => {
                &&& be32(bytes, 0) == 0x6e636c78
                &&& colour_primaries == be16(bytes, 4)
                &&& transfer_characteristics == be16(bytes, 6)
                &&& matrix_coefficients == be16(bytes, 8)
                &&& full_range_flag == (bytes[10] >= 0x80)
            },
            ColourType::RestrictedICC { icc_profile } => be32(bytes, 0) == 0x72494343 && icc_profile@ == bytes.skip(4),
            ColourType::UnrestrictedICC { icc_profile } => be32(bytes, 0) == 0x70726f66 && icc_profile@ == bytes.skip(4),
        },
{
}

} // verus!
