//! Child boxes of container boxes: finding and decoding them.
use vstd::prelude::*;

use crate::bytes::be32;
use crate::codec::{BoxDecode, BoxEncode, spec_boxed, spec_opt_boxed, lemma_boxed_frame, lemma_children_boxed};
use crate::error::{Error, ErrorKind};
use crate::rawbox::{BoxIter, RawBoxRef, Lookup, find_child, find_unique_child, spec_find_after, spec_find, spec_children, spec_children_ok, spec_box_len, spec_header_len, lemma_box_len_bounds};
use crate::types::BoxType;

verus! {

/// The type code of a whole box.
pub open spec fn box_code(b: Seq<u8>) -> u32 {
    be32(b, 4)
}

/// The payload of a whole box.
pub open spec fn box_payload(b: Seq<u8>) -> Seq<u8> {
    b.skip(spec_header_len(b))
}

/// How many of the boxes `bs` have the type code `c`.
pub open spec fn count_code(bs: Seq<Seq<u8>>, c: u32) -> nat
    decreases bs.len(),
{
    if bs.len() == 0 {
        0
    } else {
        count_code(bs.drop_last(), c) + (if box_code(bs.last()) == c {
            1nat
        } else {
            0nat
        })
    }
}

/// The payloads of the boxes of `bs` with the type code `c`, in order.
pub open spec fn payloads_of(bs: Seq<Seq<u8>>, c: u32) -> Seq<Seq<u8>>
    decreases bs.len(),
{
    if bs.len() == 0 {
        Seq::empty()
    } else if box_code(bs.last()) == c {
        payloads_of(bs.drop_last(), c).push(box_payload(bs.last()))
    } else {
        payloads_of(bs.drop_last(), c)
    }
}

/// The payloads of the boxes with a code are as many as those boxes.
pub proof fn lemma_payloads_count(bs: Seq<Seq<u8>>, c: u32)
    ensures
        payloads_of(bs, c).len() == count_code(bs, c),
    decreases bs.len(),
{
    if bs.len() > 0 {
        lemma_payloads_count(bs.drop_last(), c);
    }
}

/// Adding a box to the end adds to the count and the payloads of its code only.
pub proof fn lemma_children_push(bs: Seq<Seq<u8>>, b: Seq<u8>, c: u32)
    ensures
        count_code(bs.push(b), c) == count_code(bs, c) + (if box_code(b) == c { 1nat } else { 0nat }),
        payloads_of(bs.push(b), c) == (if box_code(b) == c {
            payloads_of(bs, c).push(box_payload(b))
        } else {
            payloads_of(bs, c)
        }),
{
    assert(bs.push(b).drop_last() =~= bs);
    assert(bs.push(b).last() == b);
}

/// The boxes of a code in two runs of boxes: those of the first run, then those
/// of the second.
pub proof fn lemma_payloads_concat(a: Seq<Seq<u8>>, b: Seq<Seq<u8>>, c: u32)
    ensures
        payloads_of(a + b, c) == payloads_of(a, c) + payloads_of(b, c),
        count_code(a + b, c) == count_code(a, c) + count_code(b, c),
    decreases b.len(),
{
    if b.len() == 0 {
        assert(a + b =~= a);
        assert(payloads_of(a, c) + payloads_of(b, c) =~= payloads_of(a, c));
    } else {
        lemma_payloads_concat(a, b.drop_last(), c);
        assert((a + b).drop_last() =~= a + b.drop_last());
        assert((a + b).last() == b.last());
        if box_code(b.last()) == c {
            assert(payloads_of(a, c) + payloads_of(b.drop_last(), c).push(box_payload(b.last())) =~= (payloads_of(a, c)
                + payloads_of(b.drop_last(), c)).push(box_payload(b.last())));
        }
    }
}

/// A written box has its type's code, and its payload is the written payload.
pub proof fn lemma_boxed_code_payload<T: BoxEncode>(b: &T)
    requires
        b.spec_encode().len() + 16 <= u64::MAX,
    ensures
        box_code(spec_boxed(b)) == b.spec_boxtype().code(),
        box_payload(spec_boxed(b)) == b.spec_encode(),
{
    lemma_boxed_frame(b, Seq::empty());
    assert(spec_boxed(b) + Seq::<u8>::empty() =~= spec_boxed(b));
    let w = spec_boxed(b);
    assert(w.skip(spec_header_len(w)) =~= w.subrange(spec_header_len(w), w.len() as int));
}

/// The payloads of a code among written boxes that all have the code `t`:
/// all their payloads when the code is `t`, none otherwise.
pub proof fn lemma_payloads_boxed<T: BoxEncode>(s: Seq<T>, t: u32, c: u32)
    requires
        forall|i: int| 0 <= i < s.len() ==> (#[trigger] s[i]).spec_boxtype().code() == t && s[i].spec_encode().len() + 16
            <= u64::MAX,
    ensures
        payloads_of(Seq::new(s.len(), |i: int| spec_boxed(&s[i])), c) == (if c == t {
            Seq::new(s.len(), |i: int| s[i].spec_encode())
        } else {
            Seq::<Seq<u8>>::empty()
        }),
        count_code(Seq::new(s.len(), |i: int| spec_boxed(&s[i])), c) == (if c == t { s.len() } else { 0 }),
    decreases s.len(),
{
    let bs = Seq::new(s.len(), |i: int| spec_boxed(&s[i]));
    if s.len() == 0 {
        assert(bs =~= Seq::<Seq<u8>>::empty());
        assert(Seq::new(s.len(), |i: int| s[i].spec_encode()) =~= Seq::<Seq<u8>>::empty());
    } else {
        let d = s.drop_last();
        assert forall|i: int| 0 <= i < d.len() implies (#[trigger] d[i]).spec_boxtype().code() == t && d[i].spec_encode().len()
            + 16 <= u64::MAX by {
            assert(d[i] == s[i]);
        }
        lemma_payloads_boxed(d, t, c);
        assert(bs.drop_last() =~= Seq::new(d.len(), |i: int| spec_boxed(&d[i])));
        assert(bs.last() == spec_boxed(&s.last()));
        assert(s.last() == s[s.len() - 1]);
        lemma_boxed_code_payload(&s.last());
        if c == t {
            assert(Seq::new(s.len(), |i: int| s[i].spec_encode()) =~= Seq::new(d.len(), |i: int| d[i].spec_encode()).push(
                s.last().spec_encode()));
        }
    }
}

/// The boxes an optional written box makes: itself, or none.
pub open spec fn opt_kids<T: BoxEncode>(o: Option<T>) -> Seq<Seq<u8>> {
    match o {
        Some(b) => seq![spec_boxed(&b)],
        None => Seq::empty(),
    }
}

/// The payloads of a code among the boxes an optional written box makes: its
/// payload when it is there and has the code, none otherwise.
pub open spec fn opt_payloads<T: BoxEncode>(o: Option<T>, c: u32) -> Seq<Seq<u8>> {
    match o {
        Some(b) => if b.spec_boxtype().code() == c {
            seq![b.spec_encode()]
        } else {
            Seq::empty()
        },
        None => Seq::empty(),
    }
}

/// The boxes of bytes that start with an optional written box.
pub proof fn lemma_children_opt_boxed<T: BoxEncode>(o: Option<T>, rest: Seq<u8>)
    requires
        o matches Some(b) ==> b.spec_encode().len() + 16 <= u64::MAX,
    ensures
        spec_children(spec_opt_boxed(o) + rest) == opt_kids(o) + spec_children(rest),
        spec_children_ok(spec_opt_boxed(o) + rest) == spec_children_ok(rest),
{
    match o {
        Some(b) => {
            lemma_children_boxed(&b, rest);
        },
        None => {
            assert(spec_opt_boxed(o) + rest =~= rest);
            assert(opt_kids(o) + spec_children(rest) =~= spec_children(rest));
        },
    }
}

/// The payloads and count of a code among the boxes an optional written box
/// makes.
pub proof fn lemma_payloads_opt_boxed<T: BoxEncode>(o: Option<T>, c: u32)
    requires
        o matches Some(b) ==> b.spec_encode().len() + 16 <= u64::MAX,
    ensures
        payloads_of(opt_kids(o), c) == opt_payloads(o, c),
        count_code(opt_kids(o), c) == opt_payloads(o, c).len(),
{
    let z = Seq::<Seq<u8>>::empty();
    assert(payloads_of(z, c) =~= z);
    match o {
        Some(b) => {
            assert(z.push(spec_boxed(&b)) =~= opt_kids(o));
            lemma_children_push(z, spec_boxed(&b), c);
            lemma_boxed_code_payload(&b);
            assert(payloads_of(opt_kids(o), c) =~= opt_payloads(o, c));
        },
        None => {},
    }
}

/// The boxes at the start of `s`, continued by those of the rest, are the boxes of `s`.
pub proof fn lemma_children_step(s: Seq<u8>)
    requires
        s.len() > 0,
        spec_box_len(s) is Some,
    ensures
        spec_children(s) == seq![s.take(spec_box_len(s)->0)] + spec_children(s.skip(spec_box_len(s)->0)),
        spec_children_ok(s) == spec_children_ok(s.skip(spec_box_len(s)->0)),
{
    lemma_box_len_bounds(s);
}

/// Whether `r` is what decoding the first child of type `t` in `content`
/// gives: `None` without one, an error for a malformed box before it or a
/// payload that does not decode.
pub open spec fn optional_child<'de, T: BoxDecode<'de>>(content: Seq<u8>, t: BoxType, r: Result<Option<T>, Error>) -> bool {
    match spec_find(content, t.code()) {
        Lookup::Found(p) => (r is Ok) == T::spec_accepts(p) && (r is Ok ==> (r matches Ok(Some(v)) && T::spec_decodes(p, v))),
        Lookup::Missing => r matches Ok(None),
        Lookup::Malformed => r is Err,
    }
}

/// Whether `r` is what decoding the first child of type `t` in `content`
/// gives, when that child is required: an error without one.
pub open spec fn required_child<'de, T: BoxDecode<'de>>(content: Seq<u8>, t: BoxType, r: Result<T, Error>) -> bool {
    match spec_find(content, t.code()) {
        Lookup::Found(p) => (r is Ok) == T::spec_accepts(p) && (r matches Ok(v) ==> T::spec_decodes(p, v)),
        _ => r is Err,
    }
}

/// Decodes the first child of type `t` in `content`, if there is one.
pub fn decode_child<'a, T: BoxDecode<'a>>(content: &'a [u8], t: BoxType) -> (r: Result<Option<T>, Error>)
    requires
        t.wf(),
    ensures
        optional_child(content@, t, r),
{
    match find_child(content, t)? {
        None => Ok(None),
        Some(p) => {
            let v = T::decode(p)?;
            Ok(Some(v))
        },
    }
}

/// Decodes the first child of type `t` in `content`; it is an error in a box
/// of type `parent` when there is none.
pub fn decode_required<'a, T: BoxDecode<'a>>(content: &'a [u8], t: BoxType, parent: BoxType) -> (r: Result<T, Error>)
    requires
        t.wf(),
    ensures
        required_child(content@, t, r),
        spec_find(content@, t.code()) is Missing ==> r == Err::<T, Error>(Error {
            kind: ErrorKind::BoxMissing { required: t },
            offset: None,
            box_type: Some(parent),
        }),
{
    match find_child(content, t)? {
        None => Err(Error::in_box(ErrorKind::BoxMissing { required: t }, parent)),
        Some(p) => T::decode(p),
    }
}

/// The error for a second box of type `t` in a box of type `parent`.
pub open spec fn duplicate_error(t: BoxType, parent: BoxType) -> Error {
    Error { kind: ErrorKind::BoxDuplicate { duplicate: t }, offset: None, box_type: Some(parent) }
}

/// Whether `r` is what decoding the child of type `t` in `content`, which may
/// occur at most once, gives: `None` without one; a duplicate error in
/// `parent` when a second one follows the first; an error for a malformed box
/// before the answer is known or a payload that does not decode.
pub open spec fn unique_child<'de, T: BoxDecode<'de>>(content: Seq<u8>, t: BoxType, parent: BoxType, r: Result<Option<T>, Error>) -> bool {
    match spec_find(content, t.code()) {
        Lookup::Found(p) => match spec_find(spec_find_after(content, t.code()), t.code()) {
            Lookup::Found(_) => r == Err::<Option<T>, Error>(duplicate_error(t, parent)),
            Lookup::Missing => (r is Ok) == T::spec_accepts(p) && (r is Ok ==> (r matches Ok(Some(v)) && T::spec_decodes(p, v))),
            Lookup::Malformed => r is Err,
        },
        Lookup::Missing => r matches Ok(None),
        Lookup::Malformed => r is Err,
    }
}

/// Whether `r` is what decoding the child of type `t` in `content`, which must
/// occur exactly once, gives: as for [`unique_child`], with an error for a
/// missing child.
pub open spec fn unique_required<'de, T: BoxDecode<'de>>(content: Seq<u8>, t: BoxType, parent: BoxType, r: Result<T, Error>) -> bool {
    match spec_find(content, t.code()) {
        Lookup::Found(p) => match spec_find(spec_find_after(content, t.code()), t.code()) {
            Lookup::Found(_) => r == Err::<T, Error>(duplicate_error(t, parent)),
            Lookup::Missing => (r is Ok) == T::spec_accepts(p) && (r matches Ok(v) ==> T::spec_decodes(p, v)),
            Lookup::Malformed => r is Err,
        },
        Lookup::Missing => r == Err::<T, Error>(Error {
            kind: ErrorKind::BoxMissing { required: t },
            offset: None,
            box_type: Some(parent),
        }),
        Lookup::Malformed => r is Err,
    }
}

/// Decodes the child of type `t` in `content`, which may occur at most once in
/// a box of type `parent`.
pub fn decode_unique_child<'a, T: BoxDecode<'a>>(content: &'a [u8], t: BoxType, parent: BoxType) -> (r: Result<Option<T>, Error>)
    requires
        t.wf(),
    ensures
        unique_child(content@, t, parent, r),
{
    match find_unique_child(content, t, parent)? {
        None => Ok(None),
        Some(p) => {
            let v = T::decode(p)?;
            Ok(Some(v))
        },
    }
}

/// Decodes the child of type `t` in `content`, which must occur exactly once in
/// a box of type `parent`.
pub fn decode_unique_required<'a, T: BoxDecode<'a>>(content: &'a [u8], t: BoxType, parent: BoxType) -> (r: Result<T, Error>)
    requires
        t.wf(),
    ensures
        unique_required(content@, t, parent, r),
{
    match find_unique_child(content, t, parent)? {
        None => Err(Error::in_box(ErrorKind::BoxMissing { required: t }, parent)),
        Some(p) => T::decode(p),
    }
}

/// The code among `codes` whose box comes a second time first in `bs`, if any.
pub open spec fn first_dup(bs: Seq<Seq<u8>>, codes: Seq<u32>) -> Option<u32>
    decreases bs.len(),
{
    if bs.len() == 0 {
        None
    } else {
        match first_dup(bs.drop_last(), codes) {
            Some(c) => Some(c),
            None => if codes.contains(box_code(bs.last())) && count_code(bs.drop_last(), box_code(bs.last())) >= 1 {
                Some(box_code(bs.last()))
            } else {
                None
            },
        }
    }
}

/// Whether `r` is the error a container returns for a second box of a type
/// that may occur once: a `BoxDuplicate` naming the type with code `d`, with
/// `parent` as the box type of the error.
pub open spec fn is_duplicate_error<T>(r: Result<T, Error>, d: u32, parent: Option<BoxType>) -> bool {
    r matches Err(e) && e.kind matches ErrorKind::BoxDuplicate { duplicate } && duplicate.code() == d && duplicate.wf()
        && e.box_type == parent && e.offset is None
}

/// Adding a box at the end: the first repeated code stays, or the new box is
/// the first repetition when its code is one of `codes` and occurred before.
pub proof fn lemma_first_dup_push(bs: Seq<Seq<u8>>, b: Seq<u8>, codes: Seq<u32>)
    ensures
        first_dup(bs.push(b), codes) == (match first_dup(bs, codes) {
            Some(c) => Some(c),
            None => if codes.contains(box_code(b)) && count_code(bs, box_code(b)) >= 1 {
                Some(box_code(b))
            } else {
                None
            },
        }),
{
    assert(bs.push(b).drop_last() =~= bs);
    assert(bs.push(b).last() == b);
}

/// Once a code has repeated, later boxes do not change the first repetition.
pub proof fn lemma_first_dup_prefix(a: Seq<Seq<u8>>, b: Seq<Seq<u8>>, codes: Seq<u32>)
    requires
        first_dup(a, codes) is Some,
    ensures
        first_dup(a + b, codes) == first_dup(a, codes),
    decreases b.len(),
{
    if b.len() == 0 {
        assert(a + b =~= a);
    } else {
        lemma_first_dup_prefix(a, b.drop_last(), codes);
        assert((a + b).drop_last() =~= a + b.drop_last());
    }
}

/// Whether every payload in `ps` decodes as a `T`.
pub open spec fn all_accepted<'de, T: BoxDecode<'de>>(ps: Seq<Seq<u8>>) -> bool {
    forall|i: int| 0 <= i < ps.len() ==> #[trigger] T::spec_accepts(ps[i])
}

/// Whether `vs` are the boxes that the payloads `ps` decode to.
pub open spec fn all_decoded<'de, T: BoxDecode<'de>>(ps: Seq<Seq<u8>>, vs: Seq<T>) -> bool {
    &&& vs.len() == ps.len()
    &&& forall|i: int| 0 <= i < ps.len() ==> #[trigger] T::spec_decodes(ps[i], vs[i])
}

/// Decodes every child of type `t` in `content`, in order: an error when a
/// box is malformed or one of them does not decode.
pub fn decode_all<'a, T: BoxDecode<'a>>(content: &'a [u8], t: BoxType) -> (r: Result<Vec<T>, Error>)
    requires
        t.wf(),
    ensures
        (r is Ok) == (spec_children_ok(content@) && all_accepted::<T>(payloads_of(spec_children(content@), t.code()))),
        r matches Ok(v) ==> all_decoded(payloads_of(spec_children(content@), t.code()), v@),
{
    let mut out: Vec<T> = Vec::new();
    let mut it = BoxIter::new(content);
    let ghost mut done: Seq<Seq<u8>> = Seq::empty();
    loop
        invariant_except_break
            t.wf(),
            it.data@ == content@,
            it.pos <= it.data@.len(),
            spec_children(content@) == done + spec_children(it.rest()),
            spec_children_ok(content@) == spec_children_ok(it.rest()),
            all_accepted::<T>(payloads_of(done, t.code())),
            all_decoded(payloads_of(done, t.code()), out@),
        ensures
            spec_children_ok(content@),
            spec_children(content@) == done,
            all_accepted::<T>(payloads_of(done, t.code())),
            all_decoded(payloads_of(done, t.code()), out@),
        decreases it.data@.len() - it.pos,
    {
        let ghost rest = it.rest();
        match it.next() {
            None => {
                assert(done + Seq::<Seq<u8>>::empty() =~= done);
                break;
            },
            Some(Err(e)) => {
                return Err(e);
            },
            Some(Ok(b)) => {
                proof {
                    lemma_children_step(rest);
                    lemma_box_len_bounds(rest);
                    lemma_children_push(done, b.data@, t.code());
                    crate::types::lemma_box_type_code_injective(b.header.boxtype, t);
                    assert(done.push(b.data@) + spec_children(it.rest()) =~= done + (seq![rest.take(spec_box_len(rest)->0)] + spec_children(rest.skip(spec_box_len(rest)->0))));
                }
                if b.boxtype() == t {
                    let ghost p = b.spec_payload();
                    assert(box_payload(b.data@) =~= p);
                    match T::decode(b.payload()) {
                        Ok(v) => {
                            let ghost before = out@;
                            out.push(v);
                            proof {
                                let ps = payloads_of(done.push(b.data@), t.code());
                                assert(ps == payloads_of(done, t.code()).push(p));
                                assert forall|i: int| 0 <= i < ps.len() implies #[trigger] T::spec_accepts(ps[i]) by {
                                    if i < ps.len() - 1 {
                                        assert(ps[i] == payloads_of(done, t.code())[i]);
                                    }
                                }
                                assert forall|i: int| 0 <= i < ps.len() implies #[trigger] T::spec_decodes(ps[i], out@[i]) by {
                                    if i < ps.len() - 1 {
                                        assert(ps[i] == payloads_of(done, t.code())[i]);
                                        assert(out@[i] == before[i]);
                                    }
                                }
                            }
                        },
                        Err(e) => {
                            proof {
                                let ps = payloads_of(done.push(b.data@), t.code());
                                assert(ps[ps.len() - 1] == p);
                                lemma_payloads_suffix::<T>(done.push(b.data@), spec_children(it.rest()), t.code(), ps.len() - 1);
                            }
                            return Err(e);
                        },
                    }
                }
                proof {
                    done = done.push(b.data@);
                }
            },
        }
    }
    Ok(out)
}

/// A payload that does not decode among the first boxes keeps all payloads
/// of the whole sequence from decoding.
proof fn lemma_payloads_suffix<'de, T: BoxDecode<'de>>(a: Seq<Seq<u8>>, b: Seq<Seq<u8>>, c: u32, i: int)
    requires
        0 <= i < payloads_of(a, c).len(),
        !T::spec_accepts(payloads_of(a, c)[i]),
    ensures
        !all_accepted::<T>(payloads_of(a + b, c)),
    decreases b.len(),
{
    if b.len() == 0 {
        assert(a + b =~= a);
    } else {
        lemma_payloads_suffix::<T>(a, b.drop_last(), c, i);
        assert((a + b).drop_last() =~= a + b.drop_last());
        lemma_payloads_prefix(a + b.drop_last(), (a + b).last(), c);
        let big = payloads_of(a + b, c);
        let small = payloads_of(a + b.drop_last(), c);
        let k = choose|k: int| 0 <= k < small.len() && !T::spec_accepts(small[k]);
        assert(big[k] == small[k]);
        assert(!T::spec_accepts(big[k]));
    }
}

/// The payloads of a sequence with one more box begin with the payloads before it.
proof fn lemma_payloads_prefix(bs: Seq<Seq<u8>>, b: Seq<u8>, c: u32)
    ensures
        payloads_of(bs.push(b), c).len() >= payloads_of(bs, c).len(),
        forall|k: int| 0 <= k < payloads_of(bs, c).len() ==> #[trigger] payloads_of(bs.push(b), c)[k] == payloads_of(bs, c)[k],
{
    lemma_children_push(bs, b, c);
}

/// Whether `o` is what the payloads `ps` of a box type that may occur once
/// give: nothing without one, else what the first one decodes to.
pub open spec fn opt_decoded<'de, T: BoxDecode<'de>>(ps: Seq<Seq<u8>>, o: Option<T>) -> bool {
    if ps.len() == 0 {
        o is None
    } else {
        o matches Some(x) && T::spec_decodes(ps[0], x)
    }
}

/// The state of a box type that may occur once, after the boxes `done`: at
/// most one of them, decoded into `acc`.
pub closed spec fn slot<'de, T: BoxDecode<'de>>(done: Seq<Seq<u8>>, c: u32, acc: Option<T>) -> bool {
    &&& count_code(done, c) <= 1
    &&& all_accepted::<T>(payloads_of(done, c))
    &&& opt_decoded(payloads_of(done, c), acc)
}

/// The state of a box type that may occur any number of times, after the
/// boxes `done`: all of them decoded into `acc`, in order.
pub closed spec fn list_slot<'de, T: BoxDecode<'de>>(done: Seq<Seq<u8>>, c: u32, acc: Seq<T>) -> bool {
    &&& all_accepted::<T>(payloads_of(done, c))
    &&& all_decoded(payloads_of(done, c), acc)
}

/// A box of another type leaves a slot as it is.
pub proof fn lemma_slot_other<'de, T: BoxDecode<'de>>(done: Seq<Seq<u8>>, b: Seq<u8>, c: u32, acc: Option<T>)
    requires
        slot(done, c, acc),
        box_code(b) != c,
    ensures
        slot(done.push(b), c, acc),
{
    lemma_children_push(done, b, c);
}

/// A first box of a type fills its slot.
pub proof fn lemma_slot_fill<'de, T: BoxDecode<'de>>(done: Seq<Seq<u8>>, b: Seq<u8>, c: u32, x: T)
    requires
        slot(done, c, None::<T>),
        box_code(b) == c,
        T::spec_accepts(box_payload(b)),
        T::spec_decodes(box_payload(b), x),
    ensures
        slot(done.push(b), c, Some(x)),
{
    lemma_children_push(done, b, c);
    lemma_payloads_count(done, c);
    let ps = payloads_of(done.push(b), c);
    assert(ps =~= seq![box_payload(b)]);
}

/// A box of another type leaves a list as it is.
pub proof fn lemma_list_other<'de, T: BoxDecode<'de>>(done: Seq<Seq<u8>>, b: Seq<u8>, c: u32, acc: Seq<T>)
    requires
        list_slot(done, c, acc),
        box_code(b) != c,
    ensures
        list_slot(done.push(b), c, acc),
{
    lemma_children_push(done, b, c);
}

/// A box of a list's type extends the list.
pub proof fn lemma_list_push<'de, T: BoxDecode<'de>>(done: Seq<Seq<u8>>, b: Seq<u8>, c: u32, acc: Seq<T>, x: T)
    requires
        list_slot(done, c, acc),
        box_code(b) == c,
        T::spec_accepts(box_payload(b)),
        T::spec_decodes(box_payload(b), x),
    ensures
        list_slot(done.push(b), c, acc.push(x)),
{
    lemma_children_push(done, b, c);
    let ps = payloads_of(done.push(b), c);
    assert forall|i: int| 0 <= i < ps.len() implies #[trigger] T::spec_accepts(ps[i]) by {
        if i < ps.len() - 1 {
            assert(ps[i] == payloads_of(done, c)[i]);
        }
    }
    assert forall|i: int| 0 <= i < ps.len() implies #[trigger] T::spec_decodes(ps[i], acc.push(x)[i]) by {
        if i < ps.len() - 1 {
            assert(ps[i] == payloads_of(done, c)[i]);
        }
    }
}

/// Counts only grow as boxes follow.
pub proof fn lemma_count_grows(a: Seq<Seq<u8>>, b: Seq<Seq<u8>>, c: u32)
    ensures
        count_code(a + b, c) >= count_code(a, c),
    decreases b.len(),
{
    if b.len() == 0 {
        assert(a + b =~= a);
    } else {
        lemma_count_grows(a, b.drop_last(), c);
        assert((a + b).drop_last() =~= a + b.drop_last());
    }
}

/// A payload that does not decode among the first boxes is among the payloads of all of them.
pub proof fn lemma_rejected_stays<'de, T: BoxDecode<'de>>(a: Seq<Seq<u8>>, b: Seq<Seq<u8>>, c: u32)
    requires
        !all_accepted::<T>(payloads_of(a, c)),
    ensures
        !all_accepted::<T>(payloads_of(a + b, c)),
{
    let ps = payloads_of(a, c);
    let i = choose|i: int| 0 <= i < ps.len() && !T::spec_accepts(ps[i]);
    lemma_payloads_suffix::<T>(a, b, c, i);
}

/// What a slot holds.
pub proof fn lemma_slot_unfold<'de, T: BoxDecode<'de>>(done: Seq<Seq<u8>>, c: u32, acc: Option<T>)
    ensures
        slot(done, c, acc) == (count_code(done, c) <= 1 && all_accepted::<T>(payloads_of(done, c)) && opt_decoded(payloads_of(done, c), acc)),
{
}

/// What a list holds.
pub proof fn lemma_list_unfold<'de, T: BoxDecode<'de>>(done: Seq<Seq<u8>>, c: u32, acc: Seq<T>)
    ensures
        list_slot(done, c, acc) == (all_accepted::<T>(payloads_of(done, c)) && all_decoded(payloads_of(done, c), acc)),
{
}

/// No boxes leave every slot empty.
pub proof fn lemma_slot_empty<'de, T: BoxDecode<'de>>(c: u32)
    ensures
        slot(Seq::<Seq<u8>>::empty(), c, None::<T>),
        list_slot(Seq::<Seq<u8>>::empty(), c, Seq::<T>::empty()),
{
}

/// The boxes of `bs` whose type code is none of `cs`, in order.
pub open spec fn others_of(bs: Seq<Seq<u8>>, cs: Seq<u32>) -> Seq<Seq<u8>>
    decreases bs.len(),
{
    if bs.len() == 0 {
        Seq::empty()
    } else if cs.contains(box_code(bs.last())) {
        others_of(bs.drop_last(), cs)
    } else {
        others_of(bs.drop_last(), cs).push(bs.last())
    }
}

/// Adding a box to the end adds it to the other boxes when its code is none of `cs`.
pub proof fn lemma_others_push(bs: Seq<Seq<u8>>, b: Seq<u8>, cs: Seq<u32>)
    ensures
        others_of(bs.push(b), cs) == (if cs.contains(box_code(b)) {
            others_of(bs, cs)
        } else {
            others_of(bs, cs).push(b)
        }),
{
    assert(bs.push(b).drop_last() =~= bs);
    assert(bs.push(b).last() == b);
}

/// The bytes of each of the boxes `rs`.
pub open spec fn refs_bytes<'a>(rs: Seq<RawBoxRef<'a>>) -> Seq<Seq<u8>> {
    rs.map_values(|r: RawBoxRef<'a>| r.data@)
}

/// The bytes of the boxes with one more box are those before, then its own.
pub proof fn lemma_refs_push<'a>(rs: Seq<RawBoxRef<'a>>, r: RawBoxRef<'a>)
    ensures
        refs_bytes(rs.push(r)) == refs_bytes(rs).push(r.data@),
{
    assert(refs_bytes(rs.push(r)) =~= refs_bytes(rs).push(r.data@));
}

/// A sequence of two codes contains exactly those two.
pub proof fn lemma_contains2(a: u32, b: u32, c: u32)
    ensures
        seq![a, b].contains(c) <==> (c == a || c == b),
{
    if c == a {
        assert(seq![a, b][0] == c);
    } else if c == b {
        assert(seq![a, b][1] == c);
    }
}

/// A sequence of three codes contains exactly those three.
pub proof fn lemma_contains3(a: u32, b: u32, d: u32, c: u32)
    ensures
        seq![a, b, d].contains(c) <==> (c == a || c == b || c == d),
{
    if c == a {
        assert(seq![a, b, d][0] == c);
    } else if c == b {
        assert(seq![a, b, d][1] == c);
    } else if c == d {
        assert(seq![a, b, d][2] == c);
    }
}

/// Whether the box `b` is consistent with its bytes: its type is the type
/// code of its bytes and its payload is what follows its header.
pub open spec fn ref_ok<'a>(b: RawBoxRef<'a>) -> bool {
    &&& b.header.boxtype.wf()
    &&& b.header.boxtype.code() == box_code(b.data@)
    &&& b.spec_header_len() <= b.data@.len()
    &&& b.spec_payload() == box_payload(b.data@)
}

/// Whether every box of `rs` is consistent with its bytes.
pub open spec fn refs_ok<'a>(rs: Seq<RawBoxRef<'a>>) -> bool {
    forall|i: int| 0 <= i < rs.len() ==> #[trigger] ref_ok(rs[i])
}

} // verus!
