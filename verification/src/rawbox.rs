//! Box headers, raw boxes, and iteration over consecutive boxes in a byte slice.
use vstd::prelude::*;

use crate::bytes::{be32, be64, u32_bytes, u64_bytes, lemma_u32_bytes_of, lemma_u64_bytes_of};
use crate::cursor::{put_slice, put_u32, put_u64, splice, ReadCursor};
use crate::error::{Error, ErrorKind};
use crate::types::{BoxType, FourCC};

verus! {

/// Whether the header at the start of `s` uses the 64-bit size field.
pub open spec fn spec_is_extended(s: Seq<u8>) -> bool {
    be32(s, 0) == 1
}

/// The header length of the box at the start of `s`.
pub open spec fn spec_header_len(s: Seq<u8>) -> int {
    if spec_is_extended(s) {
        16
    } else {
        8
    }
}

/// The total length of the box at the start of `s`, or `None` when its header
/// is truncated, its size is smaller than its header, or the box runs past the
/// end of `s`. A size of 0 means the box extends to the end of `s`.
pub open spec fn spec_box_len(s: Seq<u8>) -> Option<int> {
    if s.len() < 8 {
        None
    } else if be32(s, 0) == 1 {
        if s.len() < 16 || be64(s, 8) < 16 || be64(s, 8) > s.len() {
            None
        } else {
            Some(be64(s, 8) as int)
        }
    } else if be32(s, 0) == 0 {
        Some(s.len() as int)
    } else if be32(s, 0) < 8 || be32(s, 0) > s.len() {
        None
    } else {
        Some(be32(s, 0) as int)
    }
}

pub proof fn lemma_box_len_bounds(s: Seq<u8>)
    ensures
        spec_box_len(s) matches Some(n) ==> spec_header_len(s) <= n <= s.len() && 8 <= n,
{
}

/// The result of looking for a child box of a given type.
pub enum Lookup {
    /// The first box of the type, with this payload.
    Found(Seq<u8>),
    /// Every box parsed and none has the type.
    Missing,
    /// A malformed box came before any box of the type.
    Malformed,
}

/// Looks through the consecutive boxes of `s` for the first one whose type has
/// the code `code`.
pub open spec fn spec_find(s: Seq<u8>, code: u32) -> Lookup
    decreases s.len(),
{
    if s.len() == 0 {
        Lookup::Missing
    } else {
        match spec_box_len(s) {
            None => Lookup::Malformed,
            Some(n) => if be32(s, 4) == code {
                Lookup::Found(s.subrange(spec_header_len(s), n))
            } else {
                if n >= 8 {
                    spec_find(s.skip(n), code)
                } else {
                    Lookup::Malformed
                }
            },
        }
    }
}

/// The bytes that follow the first box of `s` whose type has the code `code`
/// (all of `s` when there is none or a malformed box comes first).
pub open spec fn spec_find_after(s: Seq<u8>, code: u32) -> Seq<u8>
    decreases s.len(),
{
    if s.len() == 0 {
        s
    } else {
        match spec_box_len(s) {
            None => s,
            Some(n) => if be32(s, 4) == code {
                s.skip(n)
            } else {
                if n >= 8 {
                    spec_find_after(s.skip(n), code)
                } else {
                    s
                }
            },
        }
    }
}


/// The consecutive boxes at the start of `s` (their whole bytes), up to the
/// first malformed one.
pub open spec fn spec_children(s: Seq<u8>) -> Seq<Seq<u8>>
    decreases s.len(),
{
    if s.len() == 0 {
        Seq::empty()
    } else {
        match spec_box_len(s) {
            None => Seq::empty(),
            Some(n) => if n >= 8 {
                seq![s.take(n)] + spec_children(s.skip(n))
            } else {
                Seq::empty()
            },
        }
    }
}

/// Whether every box in `s` parses.
pub open spec fn spec_children_ok(s: Seq<u8>) -> bool
    decreases s.len(),
{
    if s.len() == 0 {
        true
    } else {
        match spec_box_len(s) {
            None => false,
            Some(n) => if n >= 8 {
                spec_children_ok(s.skip(n))
            } else {
                false
            },
        }
    }
}

/// The size field of a box header.
#[derive(Clone, Copy, PartialEq, Eq, Structural, Debug)]
pub enum BoxSize {
    /// A 32-bit size.
    Compact(u32),
    /// A 64-bit size (the 32-bit field holds 1).
    Extended(u64),
    /// The box extends to the end of the data (the 32-bit field holds 0).
    Eof,
}

impl BoxSize {
    /// Whether the box extends to the end of the data.
    pub fn is_eof(&self) -> (r: bool)
        ensures
            r == (self is Eof),
    {
        match self {
            BoxSize::Eof => true,
            _ => false,
        }
    }

    /// Whether the size uses the 64-bit field.
    pub fn is_extended(&self) -> (r: bool)
        ensures
            r == (self is Extended),
    {
        match self {
            BoxSize::Extended(_) => true,
            _ => false,
        }
    }
}

/// A box header: the box type and the size field.
#[derive(Clone, Copy, PartialEq, Eq, Structural, Debug)]
pub struct BoxHeader {
    pub boxtype: BoxType,
    pub size: BoxSize,
}

impl BoxHeader {
    /// The length of a header with a 32-bit size.
    pub const BASE_SIZE: usize = 8;
    /// The length of a header with a 64-bit size.
    pub const MAX_HEADER_SIZE: usize = 16;

    /// The bytes of this header.
    pub open spec fn spec_bytes(self) -> Seq<u8> {
        match self.size {
            BoxSize::Compact(n) => u32_bytes(n) + u32_bytes(self.boxtype.code()),
            BoxSize::Extended(n) => u32_bytes(1) + u32_bytes(self.boxtype.code()) + u64_bytes(n),
            BoxSize::Eof => u32_bytes(0) + u32_bytes(self.boxtype.code()),
        }
    }

    /// The header length.
    pub open spec fn spec_header_len(self) -> int {
        if self.size is Extended {
            16
        } else {
            8
        }
    }

    /// The header of a box of the given type with a payload of `payload_len`
    /// bytes: the 32-bit size when the total fits, else the 64-bit one.
    pub fn new(boxtype: BoxType, payload_len: usize) -> (r: BoxHeader)
        requires
            payload_len + 16 <= u64::MAX,
        ensures
            r.boxtype == boxtype,
            payload_len + 8 <= u32::MAX ==> r.size == BoxSize::Compact((payload_len + 8) as u32),
            payload_len + 8 > u32::MAX ==> r.size == BoxSize::Extended((payload_len + 16) as u64),
    {
        if payload_len <= 0xFFFF_FFFF - 8 {
            BoxHeader { boxtype, size: BoxSize::Compact((payload_len + 8) as u32) }
        } else {
            BoxHeader { boxtype, size: BoxSize::Extended((payload_len as u64) + 16) }
        }
    }

    /// The box type.
    pub fn boxtype(&self) -> (r: BoxType)
        ensures
            r == self.boxtype,
    {
        self.boxtype
    }

    /// The size field.
    pub fn boxsize(&self) -> (r: BoxSize)
        ensures
            r == self.size,
    {
        self.size
    }

    /// The header length: 16 with a 64-bit size, else 8.
    pub fn header_len(&self) -> (r: usize)
        ensures
            r == self.spec_header_len(),
    {
        match self.size {
            BoxSize::Extended(_) => 16,
            _ => 8,
        }
    }

    /// The total box size the header declares (0 for a box that runs to the end).
    pub fn total_size(&self) -> (r: u64)
        ensures
            r == match self.size {
                BoxSize::Compact(n) => n as u64,
                BoxSize::Extended(n) => n,
                BoxSize::Eof => 0,
            },
    {
        match self.size {
            BoxSize::Compact(n) => n as u64,
            BoxSize::Extended(n) => n,
            BoxSize::Eof => 0,
        }
    }

    /// Whether the declared size covers the header: at least 8 for a 32-bit
    /// size, at least 16 for a 64-bit one.
    pub open spec fn spec_size_ok(self) -> bool {
        match self.size {
            BoxSize::Compact(n) => n >= 8,
            BoxSize::Extended(n) => n >= 16,
            BoxSize::Eof => true,
        }
    }

    /// The length of the payload the header declares; `None` for a box that
    /// runs to the end of the data.
    pub fn payload_len(&self) -> (r: Option<u64>)
        requires
            self.spec_size_ok(),
        ensures
            r == match self.size {
                BoxSize::Compact(n) => Some((n - 8) as u64),
                BoxSize::Extended(n) => Some((n - 16) as u64),
                BoxSize::Eof => None::<u64>,
            },
    {
        match self.size {
            BoxSize::Compact(n) => Some((n - 8) as u64),
            BoxSize::Extended(n) => Some(n - 16),
            BoxSize::Eof => None,
        }
    }

    /// The length of the payload the header declares (`None` for a box that
    /// runs to the end of the data); an `InvalidBoxSize` error holding the
    /// declared total size when that size is smaller than the header.
    pub fn declared_payload_len(&self) -> (r: Result<Option<u64>, Error>)
        ensures
            self.spec_size_ok() ==> r == Ok::<Option<u64>, Error>(match self.size {
                BoxSize::Compact(n) => Some((n - 8) as u64),
                BoxSize::Extended(n) => Some((n - 16) as u64),
                BoxSize::Eof => None::<u64>,
            }),
            !self.spec_size_ok() ==> r == Err::<Option<u64>, Error>(Error {
                kind: ErrorKind::InvalidBoxSize {
                    reason: "size is smaller than the header",
                    got: match self.size {
                        BoxSize::Compact(n) => n as u64,
                        BoxSize::Extended(n) => n,
                        BoxSize::Eof => 0,
                    },
                },
                offset: None,
                box_type: None,
            }),
    {
        if !self.size_ok() {
            return Err(Error::new(ErrorKind::InvalidBoxSize {
                reason: "size is smaller than the header",
                got: self.total_size(),
            }));
        }
        Ok(self.payload_len())
    }

    /// Whether the declared size covers the header.
    pub fn size_ok(&self) -> (r: bool)
        ensures
            r == self.spec_size_ok(),
    {
        match self.size {
            BoxSize::Compact(n) => n >= 8,
            BoxSize::Extended(n) => n >= 16,
            BoxSize::Eof => true,
        }
    }

    /// How many header bytes follow the first eight: 8 when the size field
    /// holds 1, else 0.
    pub fn additional_header_bytes(first: &[u8; 8]) -> (r: usize)
        ensures
            r == (if be32(first@, 0) == 1 {
                8int
            } else {
                0int
            }),
    {
        let size: u32 = (first[0] as u32) * 0x1000000 + (first[1] as u32) * 0x10000 + (
        first[2] as u32) * 0x100 + (first[3] as u32);
        if size == 1 {
            8
        } else {
            0
        }
    }

    /// Parses a box header from the start of `bytes`. A 32-bit size other than
    /// 0 and 1 must be at least 8, and a 64-bit size at least 16.
    pub fn parse(bytes: &[u8]) -> (r: Result<BoxHeader, Error>)
        ensures
            r is Ok <==> (bytes@.len() >= 8 && (be32(bytes@, 0) == 1 ==> bytes@.len() >= 16
                && be64(bytes@, 8) >= 16) && (be32(bytes@, 0) >= 2 ==> be32(bytes@, 0) >= 8)),
            r matches Ok(h) ==> {
                &&& h.boxtype.code() == be32(bytes@, 4)
                &&& h.boxtype.wf()
                &&& be32(bytes@, 0) == 0 ==> h.size == BoxSize::Eof
                &&& be32(bytes@, 0) == 1 ==> h.size == BoxSize::Extended(be64(bytes@, 8))
                &&& be32(bytes@, 0) >= 2 ==> h.size == BoxSize::Compact(be32(bytes@, 0))
                &&& h.spec_size_ok()
            },
    {
        let mut cur = ReadCursor::new(bytes);
        let size: u32 = cur.read_u32_be()?;
        let code: FourCC = cur.read_fourcc()?;
        let boxtype = BoxType::new(code);
        if size == 1 {
            let large: u64 = cur.read_u64_be()?;
            if large < 16 {
                return Err(Error::at(ErrorKind::InvalidBoxSize {
                    reason: "extended size is smaller than the header",
                    got: large,
                }, 8));
            }
            Ok(BoxHeader { boxtype, size: BoxSize::Extended(large) })
        } else if size == 0 {
            Ok(BoxHeader { boxtype, size: BoxSize::Eof })
        } else if size < 8 {
            Err(Error::at(ErrorKind::InvalidBoxSize {
                reason: "size is smaller than the header",
                got: size as u64,
            }, 0))
        } else {
            Ok(BoxHeader { boxtype, size: BoxSize::Compact(size) })
        }
    }

    /// Writes this header at the start of `buf`.
    pub fn write(&self, buf: &mut [u8]) -> (r: Result<usize, Error>)
        ensures
            final(buf)@.len() == old(buf)@.len(),
            self.spec_bytes().len() <= old(buf)@.len() ==> r == Ok::<usize, Error>(
                self.spec_bytes().len() as usize,
            ) && final(buf)@ == splice(old(buf)@, 0, self.spec_bytes()),
            self.spec_bytes().len() > old(buf)@.len() ==> r is Err,
    {
        let code: u32 = self.boxtype.type_field().0;
        let ghost s0 = buf@;
        match self.size {
            BoxSize::Compact(n) => {
                if buf.len() < 8 {
                    return Err(Error::new(ErrorKind::NotEnoughBytes { expected: 8, remaining: buf.len() }));
                }
                let p = put_u32(buf, 0, n)?;
                let p = put_u32(buf, p, code)?;
                proof {
                    crate::cursor::lemma_splice_concat(s0, 0, u32_bytes(n), u32_bytes(code));
                }
                Ok(p)
            },
            BoxSize::Extended(n) => {
                if buf.len() < 16 {
                    return Err(Error::new(ErrorKind::NotEnoughBytes { expected: 16, remaining: buf.len() }));
                }
                let p = put_u32(buf, 0, 1)?;
                let p = put_u32(buf, p, code)?;
                let p = put_u64(buf, p, n)?;
                proof {
                    crate::cursor::lemma_splice_concat(s0, 0, u32_bytes(1), u32_bytes(code));
                    crate::cursor::lemma_splice_concat(s0, 0, u32_bytes(1) + u32_bytes(code), u64_bytes(n));
                }
                Ok(p)
            },
            BoxSize::Eof => {
                if buf.len() < 8 {
                    return Err(Error::new(ErrorKind::NotEnoughBytes { expected: 8, remaining: buf.len() }));
                }
                let p = put_u32(buf, 0, 0)?;
                let p = put_u32(buf, p, code)?;
                proof {
                    crate::cursor::lemma_splice_concat(s0, 0, u32_bytes(0), u32_bytes(code));
                }
                Ok(p)
            },
        }
    }
}

/// A box inside a byte slice: its header and its whole bytes.
#[derive(Debug, Clone, Copy)]
pub struct RawBoxRef<'a> {
    pub header: BoxHeader,
    pub data: &'a [u8],
}

impl<'a> RawBoxRef<'a> {
    /// The header length of this box.
    pub open spec fn spec_header_len(&self) -> int {
        self.header.spec_header_len()
    }

    /// The payload of this box.
    pub open spec fn spec_payload(&self) -> Seq<u8> {
        self.data@.skip(self.spec_header_len())
    }

    /// Parses the box at the start of `bytes`; the box may be followed by more data.
    pub fn parse(bytes: &'a [u8]) -> (r: Result<RawBoxRef<'a>, Error>)
        ensures
            r is Ok <==> spec_box_len(bytes@) is Some,
            r matches Ok(b) ==> {
                &&& b.data@ == bytes@.take(spec_box_len(bytes@)->0)
                &&& b.header.boxtype.code() == be32(bytes@, 4)
                &&& b.header.boxtype.wf()
                &&& b.spec_header_len() == spec_header_len(bytes@)
                &&& spec_header_len(bytes@) <= b.data@.len()
                &&& (be32(bytes@, 0) == 0 <==> b.header.size is Eof)
                &&& (be32(bytes@, 0) == 1 <==> b.header.size is Extended)
                &&& b.header.spec_bytes() == b.data@.take(b.spec_header_len())
            },
    {
        let header = BoxHeader::parse(bytes)?;
        let len = bytes.len();
        let total: usize = match header.size {
            BoxSize::Compact(n) => {
                if n as usize > len {
                    return Err(Error::at(ErrorKind::NotEnoughBytes { expected: n as usize, remaining: len }, 0));
                }
                n as usize
            },
            BoxSize::Extended(n) => {
                if n > len as u64 {
                    return Err(Error::at(ErrorKind::NotEnoughBytes { expected: 16, remaining: len }, 0));
                }
                n as usize
            },
            BoxSize::Eof => len,
        };
        proof {
            let s = bytes@;
            lemma_u32_bytes_of(s, 0);
            lemma_u32_bytes_of(s, 4);
            if header.size is Extended {
                lemma_u64_bytes_of(s, 8);
                assert(header.spec_bytes() =~= s.take(total as int).take(16));
            } else {
                assert(header.spec_bytes() =~= s.take(total as int).take(8));
            }
        }
        Ok(RawBoxRef { header, data: &bytes[0..total] })
    }

    /// The box type.
    pub fn boxtype(&self) -> (r: BoxType)
        ensures
            r == self.header.boxtype,
    {
        self.header.boxtype
    }

    /// The size field of the header.
    pub fn boxsize(&self) -> (r: BoxSize)
        ensures
            r == self.header.size,
    {
        self.header.size
    }

    /// The header.
    pub fn header(&self) -> (r: BoxHeader)
        ensures
            r == self.header,
    {
        self.header
    }

    /// The total length of the box, header included.
    pub fn len(&self) -> (r: usize)
        ensures
            r == self.data@.len(),
    {
        self.data.len()
    }

    /// The payload: the bytes after the header.
    pub fn payload(&self) -> (r: &'a [u8])
        requires
            self.spec_header_len() <= self.data@.len(),
        ensures
            r@ == self.spec_payload(),
    {
        let hl = self.header.header_len();
        &self.data[hl..self.data.len()]
    }

    /// The payload, consuming the box.
    pub fn into_payload(self) -> (r: &'a [u8])
        requires
            self.spec_header_len() <= self.data@.len(),
        ensures
            r@ == self.spec_payload(),
    {
        self.payload()
    }

    /// An owned copy of this box.
    pub fn to_owned(&self) -> (r: RawBoxOwned)
        requires
            self.spec_header_len() <= self.data@.len(),
        ensures
            r.header == self.header,
            r.payload@ == self.spec_payload(),
    {
        let p = self.payload();
        RawBoxOwned { header: self.header, payload: vstd::slice::slice_to_vec(p) }
    }
}

/// A box with its payload held in a vector.
#[derive(Clone, Debug)]
pub struct RawBoxOwned {
    pub header: BoxHeader,
    pub payload: Vec<u8>,
}

impl RawBoxOwned {
    /// A box from its header and payload.
    pub fn from_parts(header: BoxHeader, payload: Vec<u8>) -> (r: RawBoxOwned)
        ensures
            r.header == header,
            r.payload@ == payload@,
    {
        RawBoxOwned { header, payload }
    }

    /// The header.
    pub fn header(&self) -> (r: BoxHeader)
        ensures
            r == self.header,
    {
        self.header
    }

    /// The box type.
    pub fn boxtype(&self) -> (r: BoxType)
        ensures
            r == self.header.boxtype,
    {
        self.header.boxtype
    }

    /// The payload.
    pub fn payload(&self) -> (r: &[u8])
        ensures
            r@ == self.payload@,
    {
        self.payload.as_slice()
    }

    /// The bytes of this box: its header followed by its payload.
    pub open spec fn spec_bytes(&self) -> Seq<u8> {
        self.header.spec_bytes() + self.payload@
    }

    /// The total length of the box: header and payload.
    pub fn len(&self) -> (r: usize)
        requires
            self.header.spec_header_len() + self.payload@.len() <= usize::MAX,
        ensures
            r == self.header.spec_header_len() + self.payload@.len(),
    {
        self.header.header_len() + self.payload.len()
    }

    /// Writes the header and the payload at the start of `buf`.
    pub fn write(&self, buf: &mut [u8]) -> (r: Result<usize, Error>)
        ensures
            final(buf)@.len() == old(buf)@.len(),
            self.spec_bytes().len() <= old(buf)@.len() ==> r == Ok::<usize, Error>(
                self.spec_bytes().len() as usize,
            ) && final(buf)@ == splice(old(buf)@, 0, self.spec_bytes()),
            self.spec_bytes().len() > old(buf)@.len() ==> r is Err,
    {
        let ghost s0 = buf@;
        let ghost hb = self.header.spec_bytes();
        if buf.len() < self.payload.len() || buf.len() - self.payload.len() < self.header.header_len() {
            assert(hb.len() == self.header.spec_header_len());
            return Err(Error::new(ErrorKind::NotEnoughBytes { expected: self.payload.len(), remaining: buf.len() }));
        }
        let p = self.header.write(buf)?;
        let q = put_slice(buf, p, self.payload.as_slice())?;
        proof {
            crate::cursor::lemma_splice_concat(s0, 0, hb, self.payload@);
        }
        Ok(q)
    }
}

/// Writes the box `b`, header and payload, into `buf` at `pos`.
pub fn write_raw_at(buf: &mut [u8], pos: usize, b: &RawBoxOwned) -> (r: Result<usize, Error>)
    requires
        pos <= old(buf)@.len(),
    ensures
        final(buf)@.len() == old(buf)@.len(),
        (r is Ok) == (pos + b.spec_bytes().len() <= old(buf)@.len()),
        r matches Ok(p) ==> p == pos + b.spec_bytes().len() && final(buf)@ == splice(
            old(buf)@,
            pos as int,
            b.spec_bytes(),
        ),
{
    let ghost s0 = buf@;
    let blen = buf.len();
    let (head, tail) = buf.split_at_mut(pos);
    let w = b.write(tail);
    assert(buf@ == head@ + tail@);
    match w {
        Ok(n) => {
            assert(buf@ =~= splice(s0, pos as int, b.spec_bytes()));
            Ok(pos + n)
        },
        Err(e) => Err(e),
    }
}


/// An iterator over the consecutive boxes of a byte slice.
#[derive(Debug, Clone, Copy)]
pub struct BoxIter<'a> {
    pub data: &'a [u8],
    pub pos: usize,
}

impl<'a> BoxIter<'a> {
    /// The bytes not visited yet.
    pub open spec fn rest(&self) -> Seq<u8> {
        self.data@.skip(self.pos as int)
    }

    /// An iterator over the boxes of `content`.
    pub fn new(content: &'a [u8]) -> (r: BoxIter<'a>)
        ensures
            r.data@ == content@,
            r.pos == 0,
            r.rest() == content@,
    {
        let r = BoxIter { data: content, pos: 0 };
        assert(r.rest() =~= content@);
        r
    }

    /// The next box: `None` at the end of the data, an error for a malformed
    /// box (the position then stays where it is).
    pub fn next(&mut self) -> (r: Option<Result<RawBoxRef<'a>, Error>>)
        requires
            old(self).pos <= old(self).data@.len(),
        ensures
            final(self).data@ == old(self).data@,
            final(self).pos <= final(self).data@.len(),
            old(self).rest().len() == 0 ==> r is None && final(self).pos == old(self).pos,
            old(self).rest().len() > 0 && spec_box_len(old(self).rest()) is None ==> (r matches Some(
                x,
            ) && x is Err) && final(self).pos == old(self).pos,
            old(self).rest().len() > 0 && spec_box_len(old(self).rest()) is Some ==> {
                let n = spec_box_len(old(self).rest())->0;
                &&& r matches Some(Ok(b))
                &&& b.data@ == old(self).rest().take(n)
                &&& b.header.boxtype.code() == be32(old(self).rest(), 4)
                &&& b.header.boxtype.wf()
                &&& b.spec_header_len() == spec_header_len(old(self).rest())
                &&& b.spec_header_len() <= b.data@.len()
                &&& b.header.spec_bytes() == b.data@.take(b.spec_header_len())
                &&& final(self).pos == old(self).pos + n
                &&& final(self).rest() == old(self).rest().skip(n)
            },
    {
        if self.pos >= self.data.len() {
            return None;
        }
        let rest = &self.data[self.pos..self.data.len()];
        assert(rest@ =~= self.rest());
        match RawBoxRef::parse(rest) {
            Ok(b) => {
                proof {
                    lemma_box_len_bounds(rest@);
                }
                let ghost old_rest = self.rest();
                self.pos = self.pos + b.data.len();
                assert(self.rest() =~= old_rest.skip(b.data@.len() as int));
                Some(Ok(b))
            },
            Err(e) => Some(Err(e)),
        }
    }
}

/// An iterator over the consecutive boxes in `data`.
pub fn iter_boxes(data: &[u8]) -> (r: BoxIter<'_>)
    ensures
        r.rest() == data@,
        r.data@ == data@,
        r.pos == 0,
{
    BoxIter::new(data)
}

/// Looks through the consecutive boxes of `content` for the first box of type
/// `t`, and returns its payload.
pub fn find_child<'a>(content: &'a [u8], t: BoxType) -> (r: Result<Option<&'a [u8]>, Error>)
    requires
        t.wf(),
    ensures
        match spec_find(content@, t.code()) {
            Lookup::Found(p) => r matches Ok(Some(x)) && x@ == p,
            Lookup::Missing => r matches Ok(None),
            Lookup::Malformed => r is Err,
        },
{
    let mut it = BoxIter::new(content);
    loop
        invariant
            it.data@ == content@,
            it.pos <= content@.len(),
            t.wf(),
            spec_find(it.rest(), t.code()) == spec_find(content@, t.code()),
        decreases content@.len() - it.pos,
    {
        let ghost rest = it.rest();
        match it.next() {
            None => {
                return Ok(None);
            },
            Some(Err(e)) => {
                return Err(e);
            },
            Some(Ok(b)) => {
                proof {
                    lemma_box_len_bounds(rest);
                    crate::types::lemma_box_type_code_injective(b.header.boxtype, t);
                }
                if b.boxtype() == t {
                    assert(b.spec_payload() =~= rest.subrange(spec_header_len(rest), spec_box_len(rest)->0));
                    return Ok(Some(b.payload()));
                }
            },
        }
    }
}

/// Looks through the consecutive boxes of `content` for the box of type `t`,
/// which may occur at most once, and returns its payload: an error in a box of
/// type `parent` when a second box of the type follows the first, or an error
/// for a malformed box before the answer is known.
pub fn find_unique_child<'a>(content: &'a [u8], t: BoxType, parent: BoxType) -> (r: Result<Option<&'a [u8]>, Error>)
    requires
        t.wf(),
    ensures
        match spec_find(content@, t.code()) {
            Lookup::Found(p) => match spec_find(spec_find_after(content@, t.code()), t.code()) {
                Lookup::Found(_) => r == Err::<Option<&'a [u8]>, Error>(Error {
                    kind: ErrorKind::BoxDuplicate { duplicate: t },
                    offset: None,
                    box_type: Some(parent),
                }),
                Lookup::Missing => r matches Ok(Some(x)) && x@ == p,
                Lookup::Malformed => r is Err,
            },
            Lookup::Missing => r matches Ok(None),
            Lookup::Malformed => r is Err,
        },
{
    let mut it = BoxIter::new(content);
    let mut found: Option<&'a [u8]> = None;
    loop
        invariant
            it.data@ == content@,
            it.pos <= content@.len(),
            t.wf(),
            found is None ==> spec_find(it.rest(), t.code()) == spec_find(content@, t.code())
                && spec_find_after(it.rest(), t.code()) == spec_find_after(content@, t.code()),
            found matches Some(x) ==> spec_find(content@, t.code()) == Lookup::Found(x@)
                && spec_find(it.rest(), t.code()) == spec_find(spec_find_after(content@, t.code()), t.code()),
        decreases content@.len() - it.pos,
    {
        let ghost rest = it.rest();
        match it.next() {
            None => {
                return Ok(found);
            },
            Some(Err(e)) => {
                return Err(e);
            },
            Some(Ok(b)) => {
                proof {
                    lemma_box_len_bounds(rest);
                    crate::types::lemma_box_type_code_injective(b.header.boxtype, t);
                }
                if b.boxtype() == t {
                    if found.is_some() {
                        return Err(Error::in_box(ErrorKind::BoxDuplicate { duplicate: t }, parent));
                    }
                    assert(b.spec_payload() =~= rest.subrange(spec_header_len(rest), spec_box_len(rest)->0));
                    found = Some(b.payload());
                }
            },
        }
    }
}

} // verus!
