//! Big-endian integer encodings as mathematical functions on byte sequences.
use vstd::prelude::*;

verus! {


/// The big-endian value of the two bytes of `s` at `i`.
pub open spec fn be16(s: Seq<u8>, i: int) -> u16 {
    (s[i] as int * 0x100 + s[i + 1] as int) as u16
}

/// The big-endian value of the four bytes of `s` at `i`.
pub open spec fn be32(s: Seq<u8>, i: int) -> u32 {
    (s[i] as int * 0x1000000 + s[i + 1] as int * 0x10000 + s[i + 2] as int * 0x100 + s[i
        + 3] as int) as u32
}

/// The big-endian value of the eight bytes of `s` at `i`.
pub open spec fn be64(s: Seq<u8>, i: int) -> u64 {
    (be32(s, i) as int * 0x1_0000_0000 + be32(s, i + 4) as int) as u64
}

/// The big-endian value of the three bytes of `s` at `i` (a box's flags field).
pub open spec fn be24(s: Seq<u8>, i: int) -> u32 {
    (s[i] as int * 0x10000 + s[i + 1] as int * 0x100 + s[i + 2] as int) as u32
}

/// Values read after dropping the first `k` bytes are those read `k` bytes further.
pub proof fn lemma_be_skip(s: Seq<u8>, k: int, off: int)
    requires
        0 <= k,
        0 <= off,
        k + off + 8 <= s.len(),
    ensures
        be16(s.skip(k), off) == be16(s, k + off),
        be32(s.skip(k), off) == be32(s, k + off),
        be32(s.skip(k), off + 4) == be32(s, k + off + 4),
        be64(s.skip(k), off) == be64(s, k + off),
{
    let t = s.skip(k);
    assert(t[off] == s[k + off] && t[off + 1] == s[k + off + 1] && t[off + 2] == s[k + off + 2] && t[off + 3] == s[k + off + 3]);
    assert(t[off + 4] == s[k + off + 4] && t[off + 5] == s[k + off + 5] && t[off + 6] == s[k + off + 6] && t[off + 7] == s[k + off + 7]);
}

/// Values read after dropping the first `k` bytes are those read `k` bytes
/// further (for a read of two or four bytes near the end).
pub proof fn lemma_be_skip_short(s: Seq<u8>, k: int, off: int)
    requires
        0 <= k,
        0 <= off,
        k + off + 2 <= s.len(),
    ensures
        be16(s.skip(k), off) == be16(s, k + off),
        k + off + 4 <= s.len() ==> be32(s.skip(k), off) == be32(s, k + off),
{
    let t = s.skip(k);
    assert(t[off] == s[k + off] && t[off + 1] == s[k + off + 1]);
    if k + off + 4 <= s.len() {
        assert(t[off + 2] == s[k + off + 2] && t[off + 3] == s[k + off + 3]);
    }
}

/// The two bytes of `x`, most significant first.
pub open spec fn u16_bytes(x: u16) -> Seq<u8> {
    seq![(x / 0x100) as u8, (x % 0x100) as u8]
}

/// The three low bytes of `x`, most significant first.
pub open spec fn u24_bytes(x: u32) -> Seq<u8> {
    seq![((x / 0x10000) % 0x100) as u8, ((x / 0x100) % 0x100) as u8, (x % 0x100) as u8]
}

/// The four bytes of `x`, most significant first.
pub open spec fn u32_bytes(x: u32) -> Seq<u8> {
    seq![
        (x / 0x1000000) as u8,
        ((x / 0x10000) % 0x100) as u8,
        ((x / 0x100) % 0x100) as u8,
        (x % 0x100) as u8,
    ]
}

/// The eight bytes of `x`, most significant first.
pub open spec fn u64_bytes(x: u64) -> Seq<u8> {
    u32_bytes((x / 0x1_0000_0000) as u32) + u32_bytes((x % 0x1_0000_0000) as u32)
}

pub proof fn lemma_be16_roundtrip(x: u16)
    ensures
        be16(u16_bytes(x), 0) == x,
{
    let s = u16_bytes(x);
    assert(s[0] as int * 0x100 + s[1] as int == x) by (nonlinear_arith)
        requires
            s[0] == (x / 0x100) as u8,
            s[1] == (x % 0x100) as u8,
    ;
}

pub proof fn lemma_be24_roundtrip(x: u32)
    requires
        x < 0x100_0000,
    ensures
        be24(u24_bytes(x), 0) == x,
{
    let s = u24_bytes(x);
    assert(s[0] as int * 0x10000 + s[1] as int * 0x100 + s[2] as int == x) by (nonlinear_arith)
        requires
            x < 0x100_0000,
            s[0] == ((x / 0x10000) % 0x100) as u8,
            s[1] == ((x / 0x100) % 0x100) as u8,
            s[2] == (x % 0x100) as u8,
    ;
}

pub proof fn lemma_be32_roundtrip(x: u32)
    ensures
        be32(u32_bytes(x), 0) == x,
{
    let s = u32_bytes(x);
    assert(s[0] as int * 0x1000000 + s[1] as int * 0x10000 + s[2] as int * 0x100 + s[3] as int
        == x) by (nonlinear_arith)
        requires
            s[0] == (x / 0x1000000) as u8,
            s[1] == ((x / 0x10000) % 0x100) as u8,
            s[2] == ((x / 0x100) % 0x100) as u8,
            s[3] == (x % 0x100) as u8,
    ;
}

pub proof fn lemma_be64_roundtrip(x: u64)
    ensures
        be64(u64_bytes(x), 0) == x,
{
    let hi = (x / 0x1_0000_0000) as u32;
    let lo = (x % 0x1_0000_0000) as u32;
    lemma_be32_roundtrip(hi);
    lemma_be32_roundtrip(lo);
    let s = u64_bytes(x);
    assert(s.subrange(0, 4) =~= u32_bytes(hi));
    assert(s.subrange(4, 8) =~= u32_bytes(lo));
    assert(be32(s, 0) == be32(u32_bytes(hi), 0));
    assert(be32(s, 4) == be32(u32_bytes(lo), 0));
    assert(hi as int * 0x1_0000_0000 + lo as int == x) by (nonlinear_arith)
        requires
            hi == (x / 0x1_0000_0000) as u32,
            lo == (x % 0x1_0000_0000) as u32,
    ;
}

/// A 16-bit value read back at its position in a concatenation.
pub proof fn lemma_be16_at(p: Seq<u8>, x: u16, q: Seq<u8>)
    ensures
        be16(p + u16_bytes(x) + q, p.len() as int) == x,
{
    lemma_be16_roundtrip(x);
    let s = p + u16_bytes(x) + q;
    assert(s[p.len() as int] == u16_bytes(x)[0]);
    assert(s[p.len() as int + 1] == u16_bytes(x)[1]);
}

/// A 24-bit value read back at its position in a concatenation.
pub proof fn lemma_be24_at(p: Seq<u8>, x: u32, q: Seq<u8>)
    requires
        x < 0x100_0000,
    ensures
        be24(p + u24_bytes(x) + q, p.len() as int) == x,
{
    lemma_be24_roundtrip(x);
    let s = p + u24_bytes(x) + q;
    assert(s[p.len() as int] == u24_bytes(x)[0]);
    assert(s[p.len() as int + 1] == u24_bytes(x)[1]);
    assert(s[p.len() as int + 2] == u24_bytes(x)[2]);
}

/// A 32-bit value read back at its position in a concatenation.
pub proof fn lemma_be32_at(p: Seq<u8>, x: u32, q: Seq<u8>)
    ensures
        be32(p + u32_bytes(x) + q, p.len() as int) == x,
{
    lemma_be32_roundtrip(x);
    let s = p + u32_bytes(x) + q;
    assert(s[p.len() as int] == u32_bytes(x)[0]);
    assert(s[p.len() as int + 1] == u32_bytes(x)[1]);
    assert(s[p.len() as int + 2] == u32_bytes(x)[2]);
    assert(s[p.len() as int + 3] == u32_bytes(x)[3]);
}

/// A 64-bit value read back at its position in a concatenation.
pub proof fn lemma_be64_at(p: Seq<u8>, x: u64, q: Seq<u8>)
    ensures
        be64(p + u64_bytes(x) + q, p.len() as int) == x,
{
    lemma_be64_roundtrip(x);
    let s = p + u64_bytes(x) + q;
    let t = u64_bytes(x);
    assert forall|k: int| 0 <= k < 8 implies s[p.len() + k] == t[k] by {}
    assert(be32(s, p.len() as int) == be32(t, 0));
    assert(be32(s, p.len() as int + 4) == be32(t, 4));
}

/// Reading the bytes of a 16-bit value gives them back.
pub proof fn lemma_u16_bytes_of(s: Seq<u8>, i: int)
    requires
        0 <= i,
        i + 2 <= s.len(),
    ensures
        u16_bytes(be16(s, i)) == s.subrange(i, i + 2),
{
    let a = s[i];
    let b = s[i + 1];
    let x = be16(s, i);
    assert(x == a as int * 0x100 + b as int);
    assert((x / 0x100) as u8 == a && (x % 0x100) as u8 == b) by (nonlinear_arith)
        requires
            x == a as int * 0x100 + b as int,
    ;
    assert(u16_bytes(x) =~= s.subrange(i, i + 2));
}

/// Reading the bytes of a 24-bit value gives them back.
pub proof fn lemma_u24_bytes_of(s: Seq<u8>, i: int)
    requires
        0 <= i,
        i + 3 <= s.len(),
    ensures
        u24_bytes(be24(s, i)) == s.subrange(i, i + 3),
        be24(s, i) < 0x100_0000,
{
    let a = s[i];
    let b = s[i + 1];
    let c = s[i + 2];
    let x = be24(s, i);
    assert(x == a as int * 0x10000 + b as int * 0x100 + c as int);
    assert(((x / 0x10000) % 0x100) as u8 == a && ((x / 0x100) % 0x100) as u8 == b && (x % 0x100) as u8 == c) by (nonlinear_arith)
        requires
            x == a as int * 0x10000 + b as int * 0x100 + c as int,
    ;
    assert(u24_bytes(x) =~= s.subrange(i, i + 3));
}

/// Reading the bytes of a 32-bit value gives them back.
pub proof fn lemma_u32_bytes_of(s: Seq<u8>, i: int)
    requires
        0 <= i,
        i + 4 <= s.len(),
    ensures
        u32_bytes(be32(s, i)) == s.subrange(i, i + 4),
{
    let a = s[i];
    let b = s[i + 1];
    let c = s[i + 2];
    let d = s[i + 3];
    let x = be32(s, i);
    assert(x == a as int * 0x1000000 + b as int * 0x10000 + c as int * 0x100 + d as int);
    assert((x / 0x1000000) as u8 == a && ((x / 0x10000) % 0x100) as u8 == b && ((x / 0x100) % 0x100) as u8 == c && (x % 0x100) as u8 == d) by (nonlinear_arith)
        requires
            x == a as int * 0x1000000 + b as int * 0x10000 + c as int * 0x100 + d as int,
    ;
    assert(u32_bytes(x) =~= s.subrange(i, i + 4));
}

/// Reading the bytes of a 64-bit value gives them back.
pub proof fn lemma_u64_bytes_of(s: Seq<u8>, i: int)
    requires
        0 <= i,
        i + 8 <= s.len(),
    ensures
        u64_bytes(be64(s, i)) == s.subrange(i, i + 8),
{
    let hi = be32(s, i);
    let lo = be32(s, i + 4);
    let x = be64(s, i);
    assert(x == hi as int * 0x1_0000_0000 + lo as int);
    assert((x / 0x1_0000_0000) as u32 == hi && (x % 0x1_0000_0000) as u32 == lo) by (nonlinear_arith)
        requires
            x == hi as int * 0x1_0000_0000 + lo as int,
            lo < 0x1_0000_0000,
    ;
    lemma_u32_bytes_of(s, i);
    lemma_u32_bytes_of(s, i + 4);
    assert(u64_bytes(x) =~= s.subrange(i, i + 8));
}

/// A signed value survives the trip through its unsigned bits.
pub proof fn lemma_sign_casts(a: i8, b: i16, c: i32, d: i64, e: u8, f: u16, g: u32, h: u64)
    ensures
        (a as u8) as i8 == a,
        (b as u16) as i16 == b,
        (c as u32) as i32 == c,
        (d as u64) as i64 == d,
        (e as i8) as u8 == e,
        (f as i16) as u16 == f,
        (g as i32) as u32 == g,
        (h as i64) as u64 == h,
{
    assert((a as u8) as i8 == a) by (bit_vector);
    assert((b as u16) as i16 == b) by (bit_vector);
    assert((c as u32) as i32 == c) by (bit_vector);
    assert((d as u64) as i64 == d) by (bit_vector);
    assert((e as i8) as u8 == e) by (bit_vector);
    assert((f as i16) as u16 == f) by (bit_vector);
    assert((g as i32) as u32 == g) by (bit_vector);
    assert((h as i64) as u64 == h) by (bit_vector);
}

/// A byte sequence split at `b` is its two parts put together.
pub proof fn lemma_subrange_split(s: Seq<u8>, a: int, b: int, c: int)
    requires
        0 <= a <= b <= c <= s.len(),
    ensures
        s.subrange(a, c) == s.subrange(a, b) + s.subrange(b, c),
{
    assert(s.subrange(a, c) =~= s.subrange(a, b) + s.subrange(b, c));
}

/// The 16-bit value whose bytes stand at `off`.
pub proof fn lemma_be16_in(s: Seq<u8>, off: int, x: u16)
    requires
        0 <= off,
        off + 2 <= s.len(),
        s.subrange(off, off + 2) == u16_bytes(x),
    ensures
        be16(s, off) == x,
{
    lemma_be16_roundtrip(x);
    assert(s[off] == s.subrange(off, off + 2)[0]);
    assert(s[off + 1] == s.subrange(off, off + 2)[1]);
}

/// The 24-bit value whose bytes stand at `off`.
pub proof fn lemma_be24_in(s: Seq<u8>, off: int, x: u32)
    requires
        0 <= off,
        off + 3 <= s.len(),
        x < 0x100_0000,
        s.subrange(off, off + 3) == u24_bytes(x),
    ensures
        be24(s, off) == x,
{
    lemma_be24_roundtrip(x);
    assert(s[off] == s.subrange(off, off + 3)[0]);
    assert(s[off + 1] == s.subrange(off, off + 3)[1]);
    assert(s[off + 2] == s.subrange(off, off + 3)[2]);
}

/// The 32-bit value whose bytes stand at `off`.
pub proof fn lemma_be32_in(s: Seq<u8>, off: int, x: u32)
    requires
        0 <= off,
        off + 4 <= s.len(),
        s.subrange(off, off + 4) == u32_bytes(x),
    ensures
        be32(s, off) == x,
{
    lemma_be32_roundtrip(x);
    assert(s[off] == s.subrange(off, off + 4)[0]);
    assert(s[off + 1] == s.subrange(off, off + 4)[1]);
    assert(s[off + 2] == s.subrange(off, off + 4)[2]);
    assert(s[off + 3] == s.subrange(off, off + 4)[3]);
}

/// The 64-bit value whose bytes stand at `off`.
pub proof fn lemma_be64_in(s: Seq<u8>, off: int, x: u64)
    requires
        0 <= off,
        off + 8 <= s.len(),
        s.subrange(off, off + 8) == u64_bytes(x),
    ensures
        be64(s, off) == x,
{
    lemma_be64_roundtrip(x);
    let t = u64_bytes(x);
    assert forall|k: int| 0 <= k < 8 implies s[off + k] == t[k] by {
        assert(s[off + k] == s.subrange(off, off + 8)[k]);
    }
    assert(be32(s, off) == be32(t, 0));
    assert(be32(s, off + 4) == be32(t, 4));
}

/// The bytes of an optional 32-bit field: none when it is absent.
pub open spec fn opt_u32_bytes(x: Option<u32>) -> Seq<u8> {
    match x {
        Some(v) => u32_bytes(v),
        None => Seq::empty(),
    }
}

/// The bytes of an optional 64-bit field: none when it is absent.
pub open spec fn opt_u64_bytes(x: Option<u64>) -> Seq<u8> {
    match x {
        Some(v) => u64_bytes(v),
        None => Seq::empty(),
    }
}

} // verus!
