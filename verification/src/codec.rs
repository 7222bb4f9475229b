//! The decoding and encoding interfaces of boxes, and writing a box with its header.
use vstd::prelude::*;

use crate::cursor::{splice, lemma_splice_concat};
use crate::error::{Error, ErrorKind};
use crate::bytes::{be32, be64, u32_bytes, u64_bytes, lemma_be32_at, lemma_be64_at};
use crate::rawbox::{BoxHeader, BoxSize, Lookup, spec_box_len, spec_header_len, spec_find, spec_children, spec_children_ok};
use crate::types::BoxType;

verus! {

/// A box of a fixed type.
pub trait BoxCodec {
    /// The type of this box.
    spec fn spec_boxtype(&self) -> BoxType;

    /// The type of this box.
    fn boxtype(&self) -> (r: BoxType)
        ensures
            r == self.spec_boxtype(),
            r.wf(),
    ;
}

/// A box that can be decoded from its payload.
pub trait BoxDecode<'de>: Sized {
    /// The payloads this box type accepts.
    spec fn spec_accepts(bytes: Seq<u8>) -> bool;

    /// Whether `v` is the box that `bytes` decodes to.
    spec fn spec_decodes(bytes: Seq<u8>, v: Self) -> bool;

    /// Decodes a box from its payload.
    fn decode(bytes: &'de [u8]) -> (r: Result<Self, Error>)
        ensures
            (r is Ok) == Self::spec_accepts(bytes@),
            r matches Ok(v) ==> Self::spec_decodes(bytes@, v),
    ;
}

/// A box that can be encoded into a payload.
pub trait BoxEncode: BoxCodec {
    /// The payload of this box.
    spec fn spec_encode(&self) -> Seq<u8>;

    /// Whether this box can be encoded at all (given enough room).
    spec fn spec_encodable(&self) -> bool;

    /// The length of the payload.
    fn encoded_len(&self) -> (r: usize)
        ensures
            self.spec_encodable() ==> r == self.spec_encode().len(),
    ;

    /// Writes the payload at the start of `bytes`, and returns its length.
    fn encode_into(&self, bytes: &mut [u8]) -> (r: Result<usize, Error>)
        ensures
            final(bytes)@.len() == old(bytes)@.len(),
            (r is Ok) == (self.spec_encodable() && self.spec_encode().len() <= old(bytes)@.len()),
            r matches Ok(n) ==> n == self.spec_encode().len() && final(bytes)@ == splice(
                old(bytes)@,
                0,
                self.spec_encode(),
            ),
    ;
}

/// The error for a buffer of `remaining` bytes that cannot hold `expected`.
pub fn short_buffer(expected: usize, remaining: usize) -> (r: Error)
    ensures
        r.kind == (ErrorKind::NotEnoughBytes { expected, remaining }),
{
    Error::new(ErrorKind::NotEnoughBytes { expected, remaining })
}

/// The header that a box with a payload of `len` bytes gets.
pub open spec fn spec_header_for(t: BoxType, len: int) -> BoxHeader {
    if len + 8 <= u32::MAX {
        BoxHeader { boxtype: t, size: BoxSize::Compact((len + 8) as u32) }
    } else {
        BoxHeader { boxtype: t, size: BoxSize::Extended((len + 16) as u64) }
    }
}

/// The bytes of a whole box: its header followed by its payload.
pub open spec fn spec_boxed<T: BoxEncode>(b: &T) -> Seq<u8> {
    spec_header_for(b.spec_boxtype(), b.spec_encode().len() as int).spec_bytes() + b.spec_encode()
}

/// The length of a whole box with a payload of `len` bytes.
pub open spec fn spec_boxed_len(len: int) -> int {
    if len + 8 <= u32::MAX {
        len + 8
    } else {
        len + 16
    }
}

pub proof fn lemma_boxed_len<T: BoxEncode>(b: &T)
    ensures
        spec_boxed(b).len() == spec_boxed_len(b.spec_encode().len() as int),
{
}

/// The length of the box `b` with its header, saturating at `usize::MAX`.
pub fn boxed_len<T: BoxEncode>(b: &T) -> (r: usize)
    ensures
        b.spec_encodable() && spec_boxed_len(b.spec_encode().len() as int) <= usize::MAX ==> r
            == spec_boxed_len(b.spec_encode().len() as int),
{
    let n = b.encoded_len();
    if n <= 0xFFFF_FFFF - 8 {
        n + 8
    } else if n <= usize::MAX - 16 {
        n + 16
    } else {
        usize::MAX
    }
}

/// Writes the box `b`, header and payload, into `buf` at `pos`.
pub fn write_box_at<T: BoxEncode>(buf: &mut [u8], pos: usize, b: &T) -> (r: Result<usize, Error>)
    requires
        pos <= old(buf)@.len(),
    ensures
        final(buf)@.len() == old(buf)@.len(),
        (r is Ok) == (b.spec_encodable() && pos + spec_boxed(b).len() <= old(buf)@.len()),
        r matches Ok(p) ==> p == pos + spec_boxed(b).len() && final(buf)@ == splice(
            old(buf)@,
            pos as int,
            spec_boxed(b),
        ),
{
    let ghost s0 = buf@;
    let t = b.boxtype();
    let n = b.encoded_len();
    proof {
        lemma_boxed_len(b);
    }
    let blen = buf.len();
    let hl: usize = if n <= 0xFFFF_FFFF - 8 {
        8
    } else {
        16
    };
    if n > usize::MAX - hl {
        return Err(Error::new(ErrorKind::Overflow));
    }
    let header = BoxHeader::new(t, n);
    if buf.len() - pos < hl {
        return Err(Error::new(ErrorKind::NotEnoughBytes { expected: hl, remaining: buf.len() - pos }));
    }
    let (head, tail) = buf.split_at_mut(pos);
    let (hslice, pslice) = tail.split_at_mut(hl);
    let h = header.write(hslice);
    match h {
        Err(e) => {
            assert(false);
            return Err(e);
        },
        Ok(_) => {},
    }
    let e = b.encode_into(pslice);
    assert(buf@ == head@ + hslice@ + pslice@);
    match e {
        Ok(m) => {
            assert(buf@ =~= splice(s0, pos as int, spec_boxed(b)));
            Ok(pos + hl + m)
        },
        Err(err) => Err(err),
    }
}

/// The bytes of an optional box: none when it is absent.
pub open spec fn spec_opt_boxed<T: BoxEncode>(o: Option<T>) -> Seq<u8> {
    match o {
        Some(b) => spec_boxed(&b),
        None => Seq::empty(),
    }
}

/// Whether an optional box can be encoded.
pub open spec fn spec_opt_encodable<T: BoxEncode>(o: Option<T>) -> bool {
    match o {
        Some(b) => b.spec_encodable(),
        None => true,
    }
}

/// The bytes of a sequence of boxes, one after another.
#[verifier::opaque]
pub open spec fn spec_boxed_list<T: BoxEncode>(s: Seq<T>) -> Seq<u8>
    decreases s.len(),
{
    if s.len() == 0 {
        Seq::empty()
    } else {
        spec_boxed_list(s.drop_last()) + spec_boxed(&s.last())
    }
}

/// Whether every box of a sequence can be encoded.
pub open spec fn spec_list_encodable<T: BoxEncode>(s: Seq<T>) -> bool {
    forall|i: int| 0 <= i < s.len() ==> #[trigger] s[i].spec_encodable()
}

/// The bytes of the first `i + 1` boxes are those of the first `i` and then box `i`.
pub proof fn lemma_boxed_list_prefix<T: BoxEncode>(s: Seq<T>, i: int)
    requires
        0 <= i < s.len(),
    ensures
        spec_boxed_list(s.take(i + 1)) == spec_boxed_list(s.take(i)) + spec_boxed(&s[i]),
{
    reveal(spec_boxed_list);
    assert(s.take(i + 1).drop_last() =~= s.take(i));
    assert(s.take(i + 1).last() == s[i]);
}

/// The bytes of the first boxes are no longer than those of all of them.
pub proof fn lemma_boxed_list_prefix_len<T: BoxEncode>(s: Seq<T>, i: int)
    requires
        0 <= i <= s.len(),
    ensures
        spec_boxed_list(s.take(i)).len() <= spec_boxed_list(s).len(),
    decreases s.len() - i,
{
    if i < s.len() {
        lemma_boxed_list_prefix_len(s, i + 1);
        lemma_boxed_list_prefix(s, i);
    } else {
        assert(s.take(i) =~= s);
    }
}

/// A box written with its header frames itself: whatever follows it, the box
/// at the start of the bytes has the written length and type, and its payload
/// is the written payload (for a payload whose length with a 64-bit header
/// fits in 64 bits).
pub proof fn lemma_boxed_frame<T: BoxEncode>(b: &T, rest: Seq<u8>)
    requires
        b.spec_encode().len() + 16 <= u64::MAX,
    ensures
        spec_box_len(spec_boxed(b) + rest) == Some(spec_boxed(b).len() as int),
        be32(spec_boxed(b) + rest, 4) == b.spec_boxtype().code(),
        (spec_boxed(b) + rest).subrange(spec_header_len(spec_boxed(b) + rest), spec_boxed(b).len() as int)
            == b.spec_encode(),
        (spec_boxed(b) + rest).skip(spec_boxed(b).len() as int) == rest,
{
    let p = b.spec_encode();
    let c = b.spec_boxtype().code();
    let w = spec_boxed(b);
    let s = w + rest;
    if p.len() + 8 <= u32::MAX {
        let n = (p.len() + 8) as u32;
        assert(s =~= Seq::<u8>::empty() + u32_bytes(n) + (u32_bytes(c) + p + rest));
        lemma_be32_at(Seq::empty(), n, u32_bytes(c) + p + rest);
        assert(s =~= u32_bytes(n) + u32_bytes(c) + (p + rest));
        lemma_be32_at(u32_bytes(n), c, p + rest);
        assert(s.subrange(8, w.len() as int) =~= p);
    } else {
        let n = (p.len() + 16) as u64;
        assert(s =~= Seq::<u8>::empty() + u32_bytes(1) + (u32_bytes(c) + u64_bytes(n) + p + rest));
        lemma_be32_at(Seq::empty(), 1, u32_bytes(c) + u64_bytes(n) + p + rest);
        assert(s =~= u32_bytes(1) + u32_bytes(c) + (u64_bytes(n) + p + rest));
        lemma_be32_at(u32_bytes(1), c, u64_bytes(n) + p + rest);
        assert(s =~= (u32_bytes(1) + u32_bytes(c)) + u64_bytes(n) + (p + rest));
        lemma_be64_at(u32_bytes(1) + u32_bytes(c), n, p + rest);
        assert(s.subrange(16, w.len() as int) =~= p);
    }
    assert(s.skip(w.len() as int) =~= rest);
}

/// Looking for a child box in bytes that start with a written box finds that
/// box when the type is its type, and otherwise looks in what follows.
pub proof fn lemma_find_boxed<T: BoxEncode>(b: &T, rest: Seq<u8>, code: u32)
    requires
        b.spec_encode().len() + 16 <= u64::MAX,
    ensures
        spec_find(spec_boxed(b) + rest, code) == (if code == b.spec_boxtype().code() {
            Lookup::Found(b.spec_encode())
        } else {
            spec_find(rest, code)
        }),
{
    lemma_boxed_frame(b, rest);
}

/// The boxes of bytes that start with a written box: that box, then the boxes
/// of what follows.
pub proof fn lemma_children_boxed<T: BoxEncode>(b: &T, rest: Seq<u8>)
    requires
        b.spec_encode().len() + 16 <= u64::MAX,
    ensures
        spec_children(spec_boxed(b) + rest) == seq![spec_boxed(b)] + spec_children(rest),
        spec_children_ok(spec_boxed(b) + rest) == spec_children_ok(rest),
{
    lemma_boxed_frame(b, rest);
    let s = spec_boxed(b) + rest;
    assert(s.take(spec_boxed(b).len() as int) =~= spec_boxed(b));
}

/// The bytes of a sequence of boxes are those of the first one, then those of
/// the others.
pub proof fn lemma_boxed_list_first<T: BoxEncode>(s: Seq<T>)
    requires
        s.len() > 0,
    ensures
        spec_boxed_list(s) == spec_boxed(&s[0]) + spec_boxed_list(s.skip(1)),
    decreases s.len(),
{
    reveal(spec_boxed_list);
    if s.len() == 1 {
        assert(s.drop_last() =~= Seq::<T>::empty());
        assert(s.skip(1) =~= Seq::<T>::empty());
        assert(spec_boxed_list(s.skip(1)) =~= Seq::<u8>::empty());
        assert(spec_boxed_list(s.drop_last()) =~= Seq::<u8>::empty());
    } else {
        lemma_boxed_list_first(s.drop_last());
        assert(s.drop_last()[0] == s[0]);
        assert(s.drop_last().skip(1) =~= s.skip(1).drop_last());
        assert(s.skip(1).last() == s.last());
    }
}

/// The boxes of bytes holding a sequence of written boxes, followed by `rest`,
/// are the written boxes and then the boxes of `rest`.
pub proof fn lemma_children_boxed_list<T: BoxEncode>(s: Seq<T>, rest: Seq<u8>)
    requires
        forall|i: int| 0 <= i < s.len() ==> #[trigger] s[i].spec_encode().len() + 16 <= u64::MAX,
    ensures
        spec_children(spec_boxed_list(s) + rest) == Seq::new(s.len(), |i: int| spec_boxed(&s[i]))
            + spec_children(rest),
        spec_children_ok(spec_boxed_list(s) + rest) == spec_children_ok(rest),
    decreases s.len(),
{
    if s.len() == 0 {
        reveal(spec_boxed_list);
        assert(spec_boxed_list(s) + rest =~= rest);
        assert(Seq::new(s.len(), |i: int| spec_boxed(&s[i])) =~= Seq::<Seq<u8>>::empty());
    } else {
        let t = s.skip(1);
        assert forall|i: int| 0 <= i < t.len() implies #[trigger] t[i].spec_encode().len() + 16 <= u64::MAX by {
            assert(t[i] == s[i + 1]);
        }
        lemma_boxed_list_first(s);
        lemma_children_boxed_list(t, rest);
        assert(s[0].spec_encode().len() + 16 <= u64::MAX);
        lemma_children_boxed(&s[0], spec_boxed_list(t) + rest);
        assert(spec_boxed_list(s) + rest =~= spec_boxed(&s[0]) + (spec_boxed_list(t) + rest));
        assert(Seq::new(s.len(), |i: int| spec_boxed(&s[i])) =~= seq![spec_boxed(&s[0])]
            + Seq::new(t.len(), |i: int| spec_boxed(&t[i])));
    }
}

/// The length of an optional box with its header, saturating at `usize::MAX`.
pub fn opt_boxed_len<T: BoxEncode>(o: &Option<T>) -> (r: usize)
    ensures
        spec_opt_encodable(*o) && spec_opt_boxed(*o).len() <= usize::MAX ==> r == spec_opt_boxed(*o).len(),
{
    match o {
        Some(b) => {
            proof {
                lemma_boxed_len(b);
            }
            boxed_len(b)
        },
        None => 0,
    }
}

/// The length of a sequence of boxes with their headers, saturating at `usize::MAX`.
pub fn list_boxed_len<T: BoxEncode>(s: &Vec<T>) -> (r: usize)
    ensures
        spec_list_encodable(s@) && spec_boxed_list(s@).len() <= usize::MAX ==> r == spec_boxed_list(s@).len(),
{
    let mut total: usize = 0;
    let mut i: usize = 0;
    let ghost mut ok = true;
    proof {
        reveal(spec_boxed_list);
        assert(s@.take(0) =~= Seq::<T>::empty());
    }
    while i < s.len()
        invariant
            i <= s@.len(),
            ok == (forall|k: int| 0 <= k < i ==> #[trigger] s@[k].spec_encodable()),
            ok && spec_boxed_list(s@).len() <= usize::MAX ==> total == spec_boxed_list(s@.take(i as int)).len(),
        decreases s@.len() - i,
    {
        proof {
            lemma_boxed_list_prefix(s@, i as int);
            lemma_boxed_list_prefix_len(s@, i + 1);
            lemma_boxed_len(&s@[i as int]);
        }
        let n = boxed_len(&s[i]);
        if n > usize::MAX - total {
            return usize::MAX;
        }
        total = total + n;
        proof {
            if ok && !s@[i as int].spec_encodable() {
                assert(!(forall|k: int| 0 <= k < i + 1 ==> #[trigger] s@[k].spec_encodable()));
            }
            ok = ok && s@[i as int].spec_encodable();
        }
        i = i + 1;
    }
    assert(s@.take(i as int) =~= s@);
    total
}

/// Writes an optional box into `buf` at `pos`.
pub fn write_opt_box_at<T: BoxEncode>(buf: &mut [u8], pos: usize, o: &Option<T>) -> (r: Result<usize, Error>)
    requires
        pos <= old(buf)@.len(),
    ensures
        final(buf)@.len() == old(buf)@.len(),
        (r is Ok) == (spec_opt_encodable(*o) && pos + spec_opt_boxed(*o).len() <= old(buf)@.len()),
        r matches Ok(p) ==> p == pos + spec_opt_boxed(*o).len() && final(buf)@ == splice(old(buf)@, pos as int, spec_opt_boxed(*o)),
{
    match o {
        Some(b) => write_box_at(buf, pos, b),
        None => {
            proof {
                crate::cursor::lemma_splice_empty(buf@, pos as int);
            }
            Ok(pos)
        },
    }
}

/// Writes a sequence of boxes into `buf` at `pos`, one after another.
pub fn write_box_list_at<T: BoxEncode>(buf: &mut [u8], pos: usize, s: &Vec<T>) -> (r: Result<usize, Error>)
    requires
        pos <= old(buf)@.len(),
    ensures
        final(buf)@.len() == old(buf)@.len(),
        (r is Ok) == (spec_list_encodable(s@) && pos + spec_boxed_list(s@).len() <= old(buf)@.len()),
        r matches Ok(p) ==> p == pos + spec_boxed_list(s@).len() && final(buf)@ == splice(old(buf)@, pos as int, spec_boxed_list(s@)),
{
    let ghost s0 = buf@;
    let mut p = pos;
    let mut i: usize = 0;
    proof {
        reveal(spec_boxed_list);
        assert(s@.take(0) =~= Seq::<T>::empty());
        assert(spec_boxed_list(s@.take(0)) =~= Seq::<u8>::empty());
        crate::cursor::lemma_splice_empty(s0, pos as int);
    }
    while i < s.len()
        invariant
            s0 == old(buf)@,
            pos <= s0.len(),
            i <= s@.len(),
            buf@.len() == s0.len(),
            forall|k: int| 0 <= k < i ==> #[trigger] s@[k].spec_encodable(),
            p == pos + spec_boxed_list(s@.take(i as int)).len(),
            p <= s0.len(),
            buf@ == splice(s0, pos as int, spec_boxed_list(s@.take(i as int))),
        decreases s@.len() - i,
    {
        proof {
            lemma_boxed_list_prefix(s@, i as int);
            lemma_boxed_list_prefix_len(s@, i + 1);
        }
        let ghost before = spec_boxed_list(s@.take(i as int));
        let w = write_box_at(buf, p, &s[i]);
        match w {
            Ok(q) => {
                proof {
                    lemma_splice_concat(s0, pos as int, before, spec_boxed(&s@[i as int]));
                }
                p = q;
            },
            Err(e) => {
                proof {
                    if s@[i as int].spec_encodable() {
                        assert(pos + spec_boxed_list(s@).len() > s0.len());
                    } else {
                        assert(!spec_list_encodable(s@));
                    }
                }
                return Err(e);
            },
        }
        i = i + 1;
    }
    assert(s@.take(i as int) =~= s@);
    Ok(p)
}

} // verus!
