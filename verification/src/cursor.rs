//! Reading and writing big-endian fields at a position in a byte slice.
use vstd::prelude::*;

use crate::bytes::{be16, be24, be32, be64, u16_bytes, u24_bytes, u32_bytes, u64_bytes};
use crate::error::{Error, ErrorKind};
use crate::types::FourCC;

verus! {

/// `s` with the bytes from `pos` on replaced by `b`.
pub open spec fn splice(s: Seq<u8>, pos: int, b: Seq<u8>) -> Seq<u8> {
    s.take(pos) + b + s.skip(pos + b.len())
}

/// Writing `a` and then `b` right after it is writing `a + b`.
pub proof fn lemma_splice_concat(s: Seq<u8>, pos: int, a: Seq<u8>, b: Seq<u8>)
    requires
        0 <= pos,
        pos + a.len() + b.len() <= s.len(),
    ensures
        splice(splice(s, pos, a), pos + a.len(), b) == splice(s, pos, a + b),
        splice(s, pos, a).len() == s.len(),
{
    assert(splice(splice(s, pos, a), pos + a.len(), b) =~= splice(s, pos, a + b));
}

/// Writing nothing changes nothing.
pub proof fn lemma_splice_empty(s: Seq<u8>, pos: int)
    requires
        0 <= pos <= s.len(),
    ensures
        splice(s, pos, Seq::empty()) == s,
{
    assert(splice(s, pos, Seq::empty()) =~= s);
}

/// The error for a read or write of `expected` bytes at `pos` in a buffer of `len` bytes.
pub open spec fn spec_eof(expected: usize, pos: usize, len: usize) -> Error {
    Error {
        kind: ErrorKind::NotEnoughBytes { expected, remaining: (len - pos) as usize },
        offset: Some(pos as u64),
        box_type: None,
    }
}

fn eof(expected: usize, pos: usize, len: usize) -> (r: Error)
    requires
        pos <= len,
    ensures
        r == spec_eof(expected, pos, len),
{
    Error::at(ErrorKind::NotEnoughBytes { expected, remaining: len - pos }, pos as u64)
}

/// A read position in a byte slice.
#[derive(Debug, Clone, Copy)]
pub struct ReadCursor<'a> {
    pub bytes: &'a [u8],
    pub pos: usize,
}

impl<'a> ReadCursor<'a> {
    /// The position lies within the slice.
    pub open spec fn wf(&self) -> bool {
        self.pos <= self.bytes@.len()
    }

    /// The bytes not read yet.
    pub open spec fn rest(&self) -> Seq<u8> {
        self.bytes@.skip(self.pos as int)
    }

    /// Whether `n` more bytes can be read.
    pub open spec fn has(&self, n: int) -> bool {
        self.pos + n <= self.bytes@.len()
    }

    /// The same slice with the position moved on by `n`.
    pub open spec fn moved(&self, other: &Self, n: int) -> bool {
        other.bytes@ == self.bytes@ && other.pos == self.pos + n
    }

    /// The result of a failed read of `n` bytes: an error, with the position unchanged.
    pub open spec fn failed<T>(&self, other: &Self, n: usize, r: Result<T, Error>) -> bool {
        &&& other.bytes@ == self.bytes@
        &&& other.pos == self.pos
        &&& r == Err::<T, Error>(spec_eof(n, self.pos, self.bytes@.len() as usize))
    }

    /// A cursor at the start of `bytes`.
    pub fn new(bytes: &'a [u8]) -> (r: ReadCursor<'a>)
        ensures
            r.bytes@ == bytes@,
            r.pos == 0,
    {
        ReadCursor { bytes, pos: 0 }
    }

    /// The current position.
    pub fn position(&self) -> (r: usize)
        ensures
            r == self.pos,
    {
        self.pos
    }

    /// The number of bytes not read yet.
    pub fn remaining(&self) -> (r: usize)
        requires
            self.wf(),
        ensures
            r == self.bytes@.len() - self.pos,
    {
        self.bytes.len() - self.pos
    }

    /// Whether all bytes have been read.
    pub fn is_empty(&self) -> (r: bool)
        requires
            self.wf(),
        ensures
            r == (self.pos == self.bytes@.len()),
    {
        self.pos == self.bytes.len()
    }

    /// The bytes not read yet, without moving.
    pub fn remaining_slice(&self) -> (r: &'a [u8])
        requires
            self.wf(),
        ensures
            r@ == self.rest(),
    {
        &self.bytes[self.pos..self.bytes.len()]
    }

    /// Reads one byte.
    pub fn read_u8(&mut self) -> (r: Result<u8, Error>)
        requires
            old(self).wf(),
        ensures
            final(self).wf(),
            old(self).has(1) ==> old(self).moved(final(self), 1) && r == Ok::<u8, Error>(
                old(self).bytes@[old(self).pos as int],
            ),
            !old(self).has(1) ==> old(self).failed(final(self), 1, r),
    {
        if self.bytes.len() - self.pos < 1 {
            return Err(eof(1, self.pos, self.bytes.len()));
        }
        let b: u8 = self.bytes[self.pos];
        self.pos = self.pos + 1;
        Ok(b)
    }

    /// Reads one signed byte.
    pub fn read_i8(&mut self) -> (r: Result<i8, Error>)
        requires
            old(self).wf(),
        ensures
            final(self).wf(),
            old(self).has(1) ==> old(self).moved(final(self), 1) && r == Ok::<i8, Error>(
                old(self).bytes@[old(self).pos as int] as i8,
            ),
            !old(self).has(1) ==> old(self).failed(final(self), 1, r),
    {
        let b: u8 = self.read_u8()?;
        Ok(b as i8)
    }

    /// Reads a big-endian 16-bit value.
    pub fn read_u16_be(&mut self) -> (r: Result<u16, Error>)
        requires
            old(self).wf(),
        ensures
            final(self).wf(),
            old(self).has(2) ==> old(self).moved(final(self), 2) && r == Ok::<u16, Error>(
                be16(old(self).bytes@, old(self).pos as int),
            ),
            !old(self).has(2) ==> old(self).failed(final(self), 2, r),
    {
        if self.bytes.len() - self.pos < 2 {
            return Err(eof(2, self.pos, self.bytes.len()));
        }
        let p: usize = self.pos;
        let v: u16 = (self.bytes[p] as u16) * 0x100 + (self.bytes[p + 1] as u16);
        self.pos = p + 2;
        Ok(v)
    }

    /// Reads a big-endian signed 16-bit value.
    pub fn read_i16_be(&mut self) -> (r: Result<i16, Error>)
        requires
            old(self).wf(),
        ensures
            final(self).wf(),
            old(self).has(2) ==> old(self).moved(final(self), 2) && r == Ok::<i16, Error>(
                be16(old(self).bytes@, old(self).pos as int) as i16,
            ),
            !old(self).has(2) ==> old(self).failed(final(self), 2, r),
    {
        let v: u16 = self.read_u16_be()?;
        Ok(v as i16)
    }

    /// Reads a big-endian 24-bit value (a box's flags field).
    pub fn read_u24_be(&mut self) -> (r: Result<u32, Error>)
        requires
            old(self).wf(),
        ensures
            final(self).wf(),
            old(self).has(3) ==> old(self).moved(final(self), 3) && r == Ok::<u32, Error>(
                be24(old(self).bytes@, old(self).pos as int),
            ),
            !old(self).has(3) ==> old(self).failed(final(self), 3, r),
    {
        if self.bytes.len() - self.pos < 3 {
            return Err(eof(3, self.pos, self.bytes.len()));
        }
        let p: usize = self.pos;
        let v: u32 = (self.bytes[p] as u32) * 0x10000 + (self.bytes[p + 1] as u32) * 0x100 + (
        self.bytes[p + 2] as u32);
        self.pos = p + 3;
        Ok(v)
    }

    /// Reads a big-endian 32-bit value.
    pub fn read_u32_be(&mut self) -> (r: Result<u32, Error>)
        requires
            old(self).wf(),
        ensures
            final(self).wf(),
            old(self).has(4) ==> old(self).moved(final(self), 4) && r == Ok::<u32, Error>(
                be32(old(self).bytes@, old(self).pos as int),
            ),
            !old(self).has(4) ==> old(self).failed(final(self), 4, r),
    {
        if self.bytes.len() - self.pos < 4 {
            return Err(eof(4, self.pos, self.bytes.len()));
        }
        let p: usize = self.pos;
        let v: u32 = (self.bytes[p] as u32) * 0x1000000 + (self.bytes[p + 1] as u32) * 0x10000 + (
        self.bytes[p + 2] as u32) * 0x100 + (self.bytes[p + 3] as u32);
        self.pos = p + 4;
        Ok(v)
    }

    /// Reads a big-endian signed 32-bit value.
    pub fn read_i32_be(&mut self) -> (r: Result<i32, Error>)
        requires
            old(self).wf(),
        ensures
            final(self).wf(),
            old(self).has(4) ==> old(self).moved(final(self), 4) && r == Ok::<i32, Error>(
                be32(old(self).bytes@, old(self).pos as int) as i32,
            ),
            !old(self).has(4) ==> old(self).failed(final(self), 4, r),
    {
        let v: u32 = self.read_u32_be()?;
        Ok(v as i32)
    }

    /// Reads a four-character code.
    pub fn read_fourcc(&mut self) -> (r: Result<FourCC, Error>)
        requires
            old(self).wf(),
        ensures
            final(self).wf(),
            old(self).has(4) ==> old(self).moved(final(self), 4) && r == Ok::<FourCC, Error>(
                FourCC(be32(old(self).bytes@, old(self).pos as int)),
            ),
            !old(self).has(4) ==> old(self).failed(final(self), 4, r),
    {
        let v: u32 = self.read_u32_be()?;
        Ok(FourCC(v))
    }

    /// Reads a big-endian 64-bit value.
    pub fn read_u64_be(&mut self) -> (r: Result<u64, Error>)
        requires
            old(self).wf(),
        ensures
            final(self).wf(),
            old(self).has(8) ==> old(self).moved(final(self), 8) && r == Ok::<u64, Error>(
                be64(old(self).bytes@, old(self).pos as int),
            ),
            !old(self).has(8) ==> old(self).failed(final(self), 8, r),
    {
        if self.bytes.len() - self.pos < 8 {
            return Err(eof(8, self.pos, self.bytes.len()));
        }
        let hi: u32 = match self.read_u32_be() {
            Ok(v) => v,
            Err(e) => return Err(e),
        };
        let lo: u32 = match self.read_u32_be() {
            Ok(v) => v,
            Err(e) => return Err(e),
        };
        Ok((hi as u64) * 0x1_0000_0000 + (lo as u64))
    }

    /// Reads a big-endian signed 64-bit value.
    pub fn read_i64_be(&mut self) -> (r: Result<i64, Error>)
        requires
            old(self).wf(),
        ensures
            final(self).wf(),
            old(self).has(8) ==> old(self).moved(final(self), 8) && r == Ok::<i64, Error>(
                be64(old(self).bytes@, old(self).pos as int) as i64,
            ),
            !old(self).has(8) ==> old(self).failed(final(self), 8, r),
    {
        let v: u64 = self.read_u64_be()?;
        Ok(v as i64)
    }

    /// Skips `n` bytes.
    pub fn advance(&mut self, n: usize) -> (r: Result<(), Error>)
        requires
            old(self).wf(),
        ensures
            final(self).wf(),
            old(self).has(n as int) ==> old(self).moved(final(self), n as int) && r is Ok,
            !old(self).has(n as int) ==> old(self).failed(final(self), n, r),
    {
        if self.bytes.len() - self.pos < n {
            return Err(eof(n, self.pos, self.bytes.len()));
        }
        self.pos = self.pos + n;
        Ok(())
    }

    /// Takes the next `n` bytes as a slice.
    pub fn take(&mut self, n: usize) -> (r: Result<&'a [u8], Error>)
        requires
            old(self).wf(),
        ensures
            final(self).wf(),
            old(self).has(n as int) ==> old(self).moved(final(self), n as int) && (r matches Ok(
                s,
            ) && s@ == old(self).bytes@.subrange(old(self).pos as int, old(self).pos + n)),
            !old(self).has(n as int) ==> old(self).failed(final(self), n, r),
    {
        if self.bytes.len() - self.pos < n {
            return Err(eof(n, self.pos, self.bytes.len()));
        }
        let p: usize = self.pos;
        self.pos = p + n;
        Ok(&self.bytes[p..p + n])
    }
}

/// Writes `b` into `buf` at `pos`.
pub fn put_slice(buf: &mut [u8], pos: usize, b: &[u8]) -> (r: Result<usize, Error>)
    requires
        pos <= old(buf)@.len(),
    ensures
        final(buf)@.len() == old(buf)@.len(),
        pos + b@.len() <= old(buf)@.len() ==> (r matches Ok(q) && q == pos + b@.len())
            && final(buf)@ == splice(old(buf)@, pos as int, b@),
        pos + b@.len() > old(buf)@.len() ==> r == Err::<usize, Error>(
            spec_eof(b@.len() as usize, pos, old(buf)@.len() as usize),
        ) && final(buf)@ == old(buf)@,
{
    if buf.len() - pos < b.len() {
        return Err(eof(b.len(), pos, buf.len()));
    }
    let mut i: usize = 0;
    while i < b.len()
        invariant
            i <= b@.len(),
            pos + b@.len() <= buf.len(),
            buf@.len() == old(buf)@.len(),
            buf@ == splice(old(buf)@, pos as int, b@.take(i as int)),
        decreases b@.len() - i,
    {
        buf[pos + i] = b[i];
        i = i + 1;
        assert(buf@ =~= splice(old(buf)@, pos as int, b@.take(i as int)));
    }
    assert(b@.take(i as int) =~= b@);
    Ok(pos + b.len())
}

/// Writes `n` zero bytes into `buf` at `pos`.
pub fn put_zeros(buf: &mut [u8], pos: usize, n: usize) -> (r: Result<usize, Error>)
    requires
        pos <= old(buf)@.len(),
    ensures
        final(buf)@.len() == old(buf)@.len(),
        pos + n <= old(buf)@.len() ==> (r matches Ok(q) && q == pos + n) && final(buf)@
            == splice(old(buf)@, pos as int, Seq::new(n as nat, |i: int| 0u8)),
        pos + n > old(buf)@.len() ==> r == Err::<usize, Error>(
            spec_eof(n, pos, old(buf)@.len() as usize),
        ) && final(buf)@ == old(buf)@,
{
    if buf.len() - pos < n {
        return Err(eof(n, pos, buf.len()));
    }
    let ghost z = Seq::new(n as nat, |i: int| 0u8);
    let mut i: usize = 0;
    while i < n
        invariant
            i <= n,
            pos + n <= buf.len(),
            buf@.len() == old(buf)@.len(),
            z == Seq::new(n as nat, |i: int| 0u8),
            buf@ == splice(old(buf)@, pos as int, z.take(i as int)),
        decreases n - i,
    {
        buf[pos + i] = 0;
        i = i + 1;
        assert(buf@ =~= splice(old(buf)@, pos as int, z.take(i as int)));
    }
    assert(z.take(i as int) =~= z);
    Ok(pos + n)
}

/// Writes one byte into `buf` at `pos`.
pub fn put_u8(buf: &mut [u8], pos: usize, x: u8) -> (r: Result<usize, Error>)
    requires
        pos <= old(buf)@.len(),
    ensures
        final(buf)@.len() == old(buf)@.len(),
        pos + 1 <= old(buf)@.len() ==> (r matches Ok(q) && q == pos + 1) && final(buf)@
            == splice(old(buf)@, pos as int, seq![x]),
        pos + 1 > old(buf)@.len() ==> r == Err::<usize, Error>(
            spec_eof(1, pos, old(buf)@.len() as usize),
        ) && final(buf)@ == old(buf)@,
{
    if buf.len() - pos < 1 {
        return Err(eof(1, pos, buf.len()));
    }
    buf[pos] = x;
    assert(buf@ =~= splice(old(buf)@, pos as int, seq![x]));
    Ok(pos + 1)
}

/// Writes a 16-bit value, most significant byte first, into `buf` at `pos`.
pub fn put_u16(buf: &mut [u8], pos: usize, x: u16) -> (r: Result<usize, Error>)
    requires
        pos <= old(buf)@.len(),
    ensures
        final(buf)@.len() == old(buf)@.len(),
        pos + 2 <= old(buf)@.len() ==> (r matches Ok(q) && q == pos + 2) && final(buf)@
            == splice(old(buf)@, pos as int, u16_bytes(x)),
        pos + 2 > old(buf)@.len() ==> r == Err::<usize, Error>(
            spec_eof(2, pos, old(buf)@.len() as usize),
        ) && final(buf)@ == old(buf)@,
{
    if buf.len() - pos < 2 {
        return Err(eof(2, pos, buf.len()));
    }
    buf[pos] = (x / 0x100) as u8;
    buf[pos + 1] = (x % 0x100) as u8;
    assert(buf@ =~= splice(old(buf)@, pos as int, u16_bytes(x)));
    Ok(pos + 2)
}

/// Writes the three low bytes of `x`, most significant first, into `buf` at `pos`.
pub fn put_u24(buf: &mut [u8], pos: usize, x: u32) -> (r: Result<usize, Error>)
    requires
        pos <= old(buf)@.len(),
    ensures
        final(buf)@.len() == old(buf)@.len(),
        pos + 3 <= old(buf)@.len() ==> (r matches Ok(q) && q == pos + 3) && final(buf)@
            == splice(old(buf)@, pos as int, u24_bytes(x)),
        pos + 3 > old(buf)@.len() ==> r == Err::<usize, Error>(
            spec_eof(3, pos, old(buf)@.len() as usize),
        ) && final(buf)@ == old(buf)@,
{
    if buf.len() - pos < 3 {
        return Err(eof(3, pos, buf.len()));
    }
    buf[pos] = ((x / 0x10000) % 0x100) as u8;
    buf[pos + 1] = ((x / 0x100) % 0x100) as u8;
    buf[pos + 2] = (x % 0x100) as u8;
    assert(buf@ =~= splice(old(buf)@, pos as int, u24_bytes(x)));
    Ok(pos + 3)
}

/// Writes a 32-bit value, most significant byte first, into `buf` at `pos`.
pub fn put_u32(buf: &mut [u8], pos: usize, x: u32) -> (r: Result<usize, Error>)
    requires
        pos <= old(buf)@.len(),
    ensures
        final(buf)@.len() == old(buf)@.len(),
        pos + 4 <= old(buf)@.len() ==> (r matches Ok(q) && q == pos + 4) && final(buf)@
            == splice(old(buf)@, pos as int, u32_bytes(x)),
        pos + 4 > old(buf)@.len() ==> r == Err::<usize, Error>(
            spec_eof(4, pos, old(buf)@.len() as usize),
        ) && final(buf)@ == old(buf)@,
{
    if buf.len() - pos < 4 {
        return Err(eof(4, pos, buf.len()));
    }
    buf[pos] = (x / 0x1000000) as u8;
    buf[pos + 1] = ((x / 0x10000) % 0x100) as u8;
    buf[pos + 2] = ((x / 0x100) % 0x100) as u8;
    buf[pos + 3] = (x % 0x100) as u8;
    assert(buf@ =~= splice(old(buf)@, pos as int, u32_bytes(x)));
    Ok(pos + 4)
}

/// Writes a 64-bit value, most significant byte first, into `buf` at `pos`.
pub fn put_u64(buf: &mut [u8], pos: usize, x: u64) -> (r: Result<usize, Error>)
    requires
        pos <= old(buf)@.len(),
    ensures
        final(buf)@.len() == old(buf)@.len(),
        pos + 8 <= old(buf)@.len() ==> (r matches Ok(q) && q == pos + 8) && final(buf)@
            == splice(old(buf)@, pos as int, u64_bytes(x)),
        pos + 8 > old(buf)@.len() ==> r == Err::<usize, Error>(
            spec_eof(8, pos, old(buf)@.len() as usize),
        ) && final(buf)@ == old(buf)@,
{
    if buf.len() - pos < 8 {
        return Err(eof(8, pos, buf.len()));
    }
    let ghost s0 = buf@;
    let hi: u32 = (x / 0x1_0000_0000) as u32;
    let lo: u32 = (x % 0x1_0000_0000) as u32;
    let p1: usize = match put_u32(buf, pos, hi) {
        Ok(p) => p,
        Err(e) => return Err(e),
    };
    let p2: usize = match put_u32(buf, p1, lo) {
        Ok(p) => p,
        Err(e) => return Err(e),
    };
    proof {
        lemma_splice_concat(s0, pos as int, u32_bytes(hi), u32_bytes(lo));
    }
    Ok(p2)
}

} // verus!
