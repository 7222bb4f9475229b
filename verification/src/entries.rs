//! Tables of fixed-size entries, as found in sample table boxes.
use vstd::prelude::*;

use crate::cursor::{lemma_splice_concat, lemma_splice_empty, splice, ReadCursor};
use crate::bytes::{be32, u32_bytes, lemma_be32_in, lemma_u32_bytes_of};
use crate::cursor::put_u32;
use crate::error::Error;
use crate::types::FourCC;

verus! {

/// An entry of fixed size in a table box.
pub trait FixedEntry: Sized + Copy {
    /// The size of an entry in bytes.
    spec fn spec_size() -> nat;

    /// The entry stored at the start of `s`.
    spec fn spec_parse(s: Seq<u8>) -> Self;

    /// The bytes of this entry.
    spec fn spec_bytes(self) -> Seq<u8>;

    /// The size of an entry in bytes.
    fn entry_size() -> (r: usize)
        ensures
            r == Self::spec_size(),
            r > 0,
    ;

    /// Reads an entry at the cursor.
    fn read_entry(cur: &mut ReadCursor) -> (r: Self)
        requires
            old(cur).wf(),
            old(cur).has(Self::spec_size() as int),
        ensures
            final(cur).wf(),
            old(cur).moved(final(cur), Self::spec_size() as int),
            r == Self::spec_parse(old(cur).rest()),
    ;

    /// Writes this entry into `buf` at `pos`.
    fn write_entry(&self, buf: &mut [u8], pos: usize) -> (r: usize)
        requires
            pos + Self::spec_size() <= old(buf).len(),
        ensures
            r == pos + Self::spec_size(),
            final(buf)@ == splice(old(buf)@, pos as int, self.spec_bytes()),
    ;

    /// An entry has the size of its type.
    proof fn lemma_bytes_len(e: Self)
        ensures
            e.spec_bytes().len() == Self::spec_size(),
    ;

    /// Parsing the bytes of an entry gives the entry back.
    proof fn lemma_parse_bytes(e: Self, rest: Seq<u8>)
        ensures
            Self::spec_parse(e.spec_bytes() + rest) == e,
    ;

    /// The bytes of a parsed entry are the bytes it was parsed from.
    proof fn lemma_bytes_parse(s: Seq<u8>)
        requires
            s.len() >= Self::spec_size(),
        ensures
            Self::spec_parse(s).spec_bytes() == s.subrange(0, Self::spec_size() as int),
    ;
}

/// The entries stored one after another in `s`; trailing bytes too few for an
/// entry are ignored.
pub open spec fn spec_entries<E: FixedEntry>(s: Seq<u8>) -> Seq<E>
    decreases s.len(),
{
    if s.len() < E::spec_size() || E::spec_size() == 0 {
        Seq::empty()
    } else {
        seq![E::spec_parse(s)] + spec_entries::<E>(s.skip(E::spec_size() as int))
    }
}

/// The bytes of a sequence of entries, one after another.
pub open spec fn spec_entries_bytes<E: FixedEntry>(es: Seq<E>) -> Seq<u8>
    decreases es.len(),
{
    if es.len() == 0 {
        Seq::empty()
    } else {
        es[0].spec_bytes() + spec_entries_bytes(es.skip(1))
    }
}

/// The bytes of `n` entries are `n` times the entry size.
pub proof fn lemma_entries_bytes_len<E: FixedEntry>(es: Seq<E>)
    ensures
        spec_entries_bytes(es).len() == es.len() * E::spec_size(),
    decreases es.len(),
{
    if es.len() > 0 {
        E::lemma_bytes_len(es[0]);
        lemma_entries_bytes_len(es.skip(1));
        let n = es.len();
        let k = E::spec_size();
        assert((n - 1) * k + k == n * k) by (nonlinear_arith);
    }
}

/// Appending an entry appends its bytes.
pub proof fn lemma_entries_bytes_push<E: FixedEntry>(es: Seq<E>, e: E)
    ensures
        spec_entries_bytes(es.push(e)) == spec_entries_bytes(es) + e.spec_bytes(),
    decreases es.len(),
{
    if es.len() == 0 {
        assert(es.push(e).skip(1) =~= Seq::<E>::empty());
        assert(es.push(e)[0] == e);
        assert(spec_entries_bytes(Seq::<E>::empty()) == Seq::<u8>::empty());
        assert(spec_entries_bytes(es) == Seq::<u8>::empty());
        assert(spec_entries_bytes(es.push(e)) =~= e.spec_bytes() + Seq::<u8>::empty());
        assert(spec_entries_bytes(es.push(e)) =~= spec_entries_bytes(es) + e.spec_bytes());
    } else {
        assert(es.push(e).skip(1) =~= es.skip(1).push(e));
        assert(es.push(e)[0] == es[0]);
        lemma_entries_bytes_push(es.skip(1), e);
        assert(spec_entries_bytes(es.push(e)) =~= spec_entries_bytes(es) + e.spec_bytes());
    }
}

/// Parsing the bytes of a sequence of entries gives the sequence back.
pub proof fn lemma_entries_roundtrip<E: FixedEntry>(es: Seq<E>)
    requires
        E::spec_size() > 0,
    ensures
        spec_entries::<E>(spec_entries_bytes(es)) == es,
    decreases es.len(),
{
    let b = spec_entries_bytes(es);
    if es.len() == 0 {
        assert(spec_entries::<E>(b) =~= es);
    } else {
        let rest = spec_entries_bytes(es.skip(1));
        E::lemma_bytes_len(es[0]);
        E::lemma_parse_bytes(es[0], rest);
        lemma_entries_roundtrip(es.skip(1));
        assert(b.skip(E::spec_size() as int) =~= rest);
        assert(spec_entries::<E>(b) =~= es);
    }
}

/// Writing back the entries parsed from `s` gives `s` back when its length is
/// a multiple of the entry size.
pub proof fn lemma_entries_reencode<E: FixedEntry>(s: Seq<u8>, n: nat)
    requires
        E::spec_size() > 0,
        s.len() == n * E::spec_size(),
    ensures
        spec_entries_bytes(spec_entries::<E>(s)) == s,
        spec_entries::<E>(s).len() == n,
    decreases n,
{
    let k = E::spec_size();
    if n == 0 {
        assert(n * k == 0) by (nonlinear_arith)
            requires
                n == 0,
        ;
        assert(s.len() == 0);
        assert(spec_entries_bytes(spec_entries::<E>(s)) =~= s);
    } else {
        assert(n * k >= k) by (nonlinear_arith)
            requires
                n >= 1,
        ;
        assert((n - 1) * k == n * k - k) by (nonlinear_arith);
        let t = s.skip(k as int);
        lemma_entries_reencode::<E>(t, (n - 1) as nat);
        E::lemma_bytes_parse(s);
        let es = spec_entries::<E>(s);
        assert(es.skip(1) =~= spec_entries::<E>(t));
        assert(es[0] == E::spec_parse(s));
        assert(spec_entries_bytes(es) =~= s);
    }
}

/// The number of entries in `s` when its length is a multiple of the entry size.
pub proof fn lemma_entries_len<E: FixedEntry>(s: Seq<u8>, n: nat)
    requires
        E::spec_size() > 0,
        s.len() == n * E::spec_size(),
    ensures
        spec_entries::<E>(s).len() == n,
{
    lemma_entries_reencode::<E>(s, n);
}

/// Entry `i` of a table is the entry stored `i` entries into its bytes, when
/// the bytes hold at least `i + 1` entries.
pub proof fn lemma_entries_index<E: FixedEntry>(s: Seq<u8>, i: int)
    requires
        E::spec_size() > 0,
        0 <= i,
        (i + 1) * E::spec_size() <= s.len(),
    ensures
        spec_entries::<E>(s).len() > i,
        spec_entries::<E>(s)[i] == E::spec_parse(s.skip(i * E::spec_size())),
    decreases i,
{
    let n = E::spec_size() as int;
    assert((i + 1) * n == i * n + n) by (nonlinear_arith);
    assert(i * n >= 0) by (nonlinear_arith)
        requires
            i >= 0,
            n > 0,
    ;
    let t = s.skip(n);
    assert(spec_entries::<E>(s) == seq![E::spec_parse(s)] + spec_entries::<E>(t));
    if i > 0 {
        assert(i * n == (i - 1) * n + n) by (nonlinear_arith);
        lemma_entries_index::<E>(t, i - 1);
        assert(t.skip((i - 1) * n) =~= s.skip(i * n));
        assert(spec_entries::<E>(s)[i] == spec_entries::<E>(t)[i - 1]);
        assert(spec_entries::<E>(t)[i - 1] == E::spec_parse(t.skip((i - 1) * E::spec_size())));
        assert((i - 1) * E::spec_size() == (i - 1) * n);
        assert(spec_entries::<E>(s)[i] == E::spec_parse(s.skip(i * n)));
    } else {
        assert(i * n == 0) by (nonlinear_arith)
            requires
                i == 0,
        ;
        assert(s.skip(i * n) =~= s);
    }
    assert(i * n == i * E::spec_size());
    assert(s.skip(i * n) == s.skip(i * E::spec_size()));
}

/// Reads every whole entry stored in `data`.
pub fn read_entries<E: FixedEntry>(data: &[u8]) -> (r: Vec<E>)
    ensures
        r@ == spec_entries::<E>(data@),
{
    let size = E::entry_size();
    let mut cur = ReadCursor::new(data);
    let mut out: Vec<E> = Vec::new();
    assert(cur.rest() =~= data@);
    while cur.remaining() >= size
        invariant
            cur.wf(),
            cur.bytes@ == data@,
            size == E::spec_size(),
            size > 0,
            spec_entries::<E>(data@) == out@ + spec_entries::<E>(cur.rest()),
        decreases cur.bytes@.len() - cur.pos,
    {
        let ghost rest = cur.rest();
        let e = E::read_entry(&mut cur);
        assert(cur.rest() =~= rest.skip(size as int));
        out.push(e);
        assert(out@ + spec_entries::<E>(cur.rest()) =~= out@.drop_last() + spec_entries::<E>(rest));
    }
    assert(spec_entries::<E>(cur.rest()) =~= Seq::<E>::empty());
    assert(out@ + Seq::<E>::empty() =~= out@);
    out
}

/// Writes the entries `es` into `buf` at `pos`, one after another.
pub fn write_entries<E: FixedEntry>(buf: &mut [u8], pos: usize, es: &Vec<E>) -> (r: usize)
    requires
        pos + es@.len() * E::spec_size() <= old(buf)@.len(),
    ensures
        r == pos + es@.len() * E::spec_size(),
        final(buf)@ == splice(old(buf)@, pos as int, spec_entries_bytes(es@)),
{
    let size = E::entry_size();
    let ghost s0 = buf@;
    let mut p = pos;
    let mut i: usize = 0;
    proof {
        lemma_splice_empty(s0, pos as int);
        assert(es@.take(0) =~= Seq::<E>::empty());
    }
    while i < es.len()
        invariant
            i <= es@.len(),
            size == E::spec_size(),
            pos + es@.len() * E::spec_size() <= s0.len(),
            buf@.len() == s0.len(),
            p == pos + i * size,
            buf@ == splice(s0, pos as int, spec_entries_bytes(es@.take(i as int))),
        decreases es@.len() - i,
    {
        assert((i + 1) * size <= es@.len() * size) by (nonlinear_arith)
            requires
                i < es@.len(),
        ;
        assert((i + 1) * size == i * size + size) by (nonlinear_arith);
        let e = es[i];
        proof {
            E::lemma_bytes_len(e);
            lemma_entries_bytes_len(es@.take(i as int));
        }
        let q = e.write_entry(buf, p);
        proof {
            lemma_entries_bytes_push(es@.take(i as int), e);
            assert(es@.take(i + 1) =~= es@.take(i as int).push(e));
            lemma_splice_concat(s0, pos as int, spec_entries_bytes(es@.take(i as int)), e.spec_bytes());
        }
        p = q;
        i = i + 1;
    }
    assert(es@.take(i as int) =~= es@);
    p
}

/// A four-character code as a table entry, as in the brand lists of `ftyp`
/// and `styp`.
impl FixedEntry for FourCC {
    open spec fn spec_size() -> nat {
        4
    }

    open spec fn spec_parse(s: Seq<u8>) -> Self {
        FourCC(be32(s, 0))
    }

    open spec fn spec_bytes(self) -> Seq<u8> {
        u32_bytes(self.0)
    }

    fn entry_size() -> (r: usize) {
        4
    }

    fn read_entry(cur: &mut ReadCursor) -> (r: Self) {
        match cur.read_fourcc() {
            Ok(x) => x,
            Err(_) => FourCC(0),
        }
    }

    fn write_entry(&self, buf: &mut [u8], pos: usize) -> (r: usize) {
        match put_u32(buf, pos, self.0) {
            Ok(q) => q,
            Err(_) => pos,
        }
    }

    proof fn lemma_bytes_len(e: Self) {
    }

    proof fn lemma_parse_bytes(e: Self, rest: Seq<u8>) {
        assert((e.spec_bytes() + rest).subrange(0, 4) =~= u32_bytes(e.0));
        lemma_be32_in(e.spec_bytes() + rest, 0, e.0);
    }

    proof fn lemma_bytes_parse(s: Seq<u8>) {
        lemma_u32_bytes_of(s, 0);
    }
}

} // verus!
