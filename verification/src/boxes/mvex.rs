//! Movie Extends Box (`mvex`): the defaults of the movie fragments.
use vstd::prelude::*;

use crate::children::{first_dup, is_duplicate_error, lemma_first_dup_push, lemma_first_dup_prefix, unique_child, decode_unique_child, decode_child, decode_required, decode_all, optional_child, required_child, all_accepted, all_decoded, payloads_of, count_code, box_code, box_payload, slot, list_slot, opt_decoded, lemma_slot_other, lemma_slot_fill, lemma_list_other, lemma_list_push, lemma_children_push, lemma_children_step, lemma_count_grows, lemma_rejected_stays, lemma_payloads_count, lemma_slot_unfold, lemma_list_unfold, lemma_slot_empty, lemma_payloads_concat, lemma_payloads_boxed, lemma_boxed_code_payload};
use crate::codec::{BoxCodec, BoxDecode, BoxEncode, spec_boxed, spec_opt_boxed, spec_boxed_list, spec_opt_encodable, spec_list_encodable, boxed_len, opt_boxed_len, list_boxed_len, write_box_at, write_opt_box_at, write_box_list_at, lemma_boxed_len, lemma_children_boxed, lemma_children_boxed_list};
use crate::cursor::{splice, lemma_splice_concat};
use crate::error::{Error, ErrorKind};
use crate::rawbox::{BoxIter, spec_children, spec_children_ok, spec_box_len, lemma_box_len_bounds};
use crate::types::BoxType;
use crate::boxes::mehd::{MehdBox, lemma_mehd_roundtrip};
use crate::boxes::trex::{TrexBox, lemma_trex_roundtrip};

verus! {

/// Movie Extends Box (`mvex`) over the bytes of its child boxes.
#[derive(Debug)]
pub struct MvexBoxView<'a> {
    /// The child boxes.
    pub content: &'a [u8],
}

impl<'a> MvexBoxView<'a> {
    /// An iterator over the child boxes.
    pub fn boxes(&self) -> (r: BoxIter<'a>)
        ensures
            r.data@ == self.content@,
            r.pos == 0,
            r.rest() == self.content@,
    {
        BoxIter::new(self.content)
    }

    /// The Movie Extends Header Box (`mehd`), if any.
    pub fn mehd(&self) -> (r: Result<Option<MehdBox>, Error>)
        ensures
            unique_child(self.content@, BoxType::MEHD, BoxType::MVEX, r),
    {
        decode_unique_child(self.content, BoxType::MEHD, BoxType::MVEX)
    }

    /// Every track Extends Box (`trex`), in order; an error when a child box is
    /// malformed or one of them does not decode.
    pub fn trexs(&self) -> (r: Result<Vec<TrexBox>, Error>)
        ensures
            (r is Ok) == (spec_children_ok(self.content@) && all_accepted::<TrexBox>(payloads_of(spec_children(self.content@), BoxType::TREX.code()))),
            r matches Ok(v) ==> all_decoded(payloads_of(spec_children(self.content@), BoxType::TREX.code()), v@),
    {
        decode_all(self.content, BoxType::TREX)
    }
}

impl BoxCodec for MvexBoxView<'_> {
    open spec fn spec_boxtype(&self) -> BoxType {
        BoxType::MVEX
    }

    fn boxtype(&self) -> (r: BoxType) {
        BoxType::MVEX
    }
}

impl<'de> BoxDecode<'de> for MvexBoxView<'de> {
    open spec fn spec_accepts(bytes: Seq<u8>) -> bool {
        true
    }

    open spec fn spec_decodes(bytes: Seq<u8>, v: Self) -> bool {
        v.content@ == bytes
    }

    fn decode(bytes: &'de [u8]) -> (r: Result<Self, Error>) {
        Ok(MvexBoxView { content: bytes })
    }
}

/// Movie Extends Box (`mvex`) with its child boxes decoded.
#[derive(Debug, Clone)]
pub struct MvexBox {
    /// The Movie Extends Header Box (`mehd`), if any.
    pub mehd: Option<MehdBox>,
    /// Track Extends Box (`trex`)s.
    pub trexs: Vec<TrexBox>,
}

/// Whether the child boxes `bs` make an owned `mvex` box: the counts
/// its child types allow, and every child of a known type decoding.
pub open spec fn mvex_children_ok(bs: Seq<Seq<u8>>) -> bool {
    &&& count_code(bs, BoxType::MEHD.code()) <= 1
        &&& all_accepted::<MehdBox>(payloads_of(bs, BoxType::MEHD.code()))
        &&& all_accepted::<TrexBox>(payloads_of(bs, BoxType::TREX.code()))
}

/// The payloads an owned `mvex` box accepts: well-formed child boxes
/// that make such a box.
pub open spec fn mvex_accepts(s: Seq<u8>) -> bool {
    spec_children_ok(s) && mvex_children_ok(spec_children(s))
}

/// Whether `v` is the owned `mvex` box of the child boxes `bs`: each
/// field what its child boxes decode to.
pub open spec fn mvex_children_decode(bs: Seq<Seq<u8>>, v: MvexBox) -> bool {
    &&& opt_decoded::<MehdBox>(payloads_of(bs, BoxType::MEHD.code()), v.mehd)
        &&& all_decoded::<TrexBox>(payloads_of(bs, BoxType::TREX.code()), v.trexs@)
}

/// The code of the child of a `mvex` box that occurs once.
pub open spec fn mvex_once() -> Seq<u32> {
    seq![BoxType::MEHD.code()]
}

/// Which codes are in [`mvex_once`].
proof fn lemma_mvex_once(c: u32)
    ensures
        mvex_once().contains(c) == (c == BoxType::MEHD.code()),
{
    if c == BoxType::MEHD.code() {
        assert(mvex_once()[0] == c);
    }
}

/// Whether every child of a known type among `bs` decodes.
pub open spec fn mvex_known_accepted(bs: Seq<Seq<u8>>) -> bool {
    &&& all_accepted::<MehdBox>(payloads_of(bs, BoxType::MEHD.code()))
    &&& all_accepted::<TrexBox>(payloads_of(bs, BoxType::TREX.code()))
}

/// The children of a `mvex` box gathered so far.
struct MvexParts {
    mehd: Option<MehdBox>,
    trexs: Vec<TrexBox>,
}

impl MvexParts {
    /// The children gathered from the child boxes `done`.
    closed spec fn inv(&self, done: Seq<Seq<u8>>) -> bool {
        &&& slot::<MehdBox>(done, BoxType::MEHD.code(), self.mehd)
        &&& list_slot::<TrexBox>(done, BoxType::TREX.code(), self.trexs@)
    }

    /// Whether a `mehd` box came among the gathered children.
    proof fn lemma_counts(&self, done: Seq<Seq<u8>>)
        requires
            self.inv(done),
        ensures
            (self.mehd is None) == (count_code(done, BoxType::MEHD.code()) == 0),
    {
        lemma_slot_unfold::<MehdBox>(done, BoxType::MEHD.code(), self.mehd);
        lemma_payloads_count(done, BoxType::MEHD.code());
    }

    /// Nothing gathered from no boxes.
    fn new() -> (r: MvexParts)
        ensures
            r.inv(Seq::empty()),
    {
        proof {
            lemma_slot_empty::<MehdBox>(BoxType::MEHD.code());
            lemma_slot_empty::<TrexBox>(BoxType::TREX.code());
        }
        MvexParts { mehd: None, trexs: Vec::new() }
    }

    /// A box of another type changes nothing.
    proof fn lemma_skip(&self, done: Seq<Seq<u8>>, bb: Seq<u8>)
        requires
            self.inv(done),
            box_code(bb) != BoxType::MEHD.code(),
            box_code(bb) != BoxType::TREX.code(),
        ensures
            self.inv(done.push(bb)),
    {
            lemma_slot_other::<MehdBox>(done, bb, BoxType::MEHD.code(), self.mehd);
            lemma_list_other::<TrexBox>(done, bb, BoxType::TREX.code(), self.trexs@);
    }

    /// Gathers the `mehd` box `bb`, the first of its kind.
    fn put_mehd(&mut self, x: MehdBox, Ghost(done): Ghost<Seq<Seq<u8>>>, Ghost(bb): Ghost<Seq<u8>>)
        requires
            old(self).inv(done),
            old(self).mehd is None,
            box_code(bb) == BoxType::MEHD.code(),
            MehdBox::spec_accepts(box_payload(bb)),
            MehdBox::spec_decodes(box_payload(bb), x),
        ensures
            final(self).inv(done.push(bb)),
    {
        proof {
            lemma_slot_unfold::<MehdBox>(done, BoxType::MEHD.code(), old(self).mehd);
            lemma_payloads_count(done, BoxType::MEHD.code());
            lemma_slot_fill::<MehdBox>(done, bb, BoxType::MEHD.code(), x);
            lemma_list_other::<TrexBox>(done, bb, BoxType::TREX.code(), old(self).trexs@);
        }
        self.mehd = Some(x);
    }

    /// A second `mehd` box after `done` makes the children no `mvex` box.
    proof fn lemma_dup_mehd(&self, done: Seq<Seq<u8>>, bb: Seq<u8>, after: Seq<Seq<u8>>)
        requires
            self.inv(done),
            self.mehd is Some,
            box_code(bb) == BoxType::MEHD.code(),
        ensures
            !mvex_children_ok(done.push(bb) + after),
    {
        lemma_slot_unfold::<MehdBox>(done, BoxType::MEHD.code(), self.mehd);
        lemma_payloads_count(done, BoxType::MEHD.code());
        lemma_children_push(done, bb, BoxType::MEHD.code());
        lemma_count_grows(done.push(bb), after, BoxType::MEHD.code());
    }

    /// Gathers the `trex` box `bb`.
    fn push_trexs(&mut self, x: TrexBox, Ghost(done): Ghost<Seq<Seq<u8>>>, Ghost(bb): Ghost<Seq<u8>>)
        requires
            old(self).inv(done),
            box_code(bb) == BoxType::TREX.code(),
            TrexBox::spec_accepts(box_payload(bb)),
            TrexBox::spec_decodes(box_payload(bb), x),
        ensures
            final(self).inv(done.push(bb)),
    {
        proof {
            lemma_list_push::<TrexBox>(done, bb, BoxType::TREX.code(), old(self).trexs@, x);
            lemma_slot_other::<MehdBox>(done, bb, BoxType::MEHD.code(), old(self).mehd);
        }
        self.trexs.push(x);
    }

    /// The owned box from the children gathered from all child boxes `done`;
    /// an error when a required child is missing.
    fn finish(self, Ghost(done): Ghost<Seq<Seq<u8>>>) -> (r: Result<MvexBox, Error>)
        requires
            self.inv(done),
        ensures
            (r is Ok) == mvex_children_ok(done),
            r matches Ok(v) ==> mvex_children_decode(done, v),
    {
        proof {
            lemma_slot_unfold::<MehdBox>(done, BoxType::MEHD.code(), self.mehd);
            lemma_payloads_count(done, BoxType::MEHD.code());
            lemma_list_unfold::<TrexBox>(done, BoxType::TREX.code(), self.trexs@);
        }

        let MvexParts { mehd, trexs, .. } = self;
        Ok(MvexBox { mehd, trexs })
    }
}

/// A payload of type `c` that does not decode makes the children no `mvex` box.
proof fn reject_proof<'de, T: BoxDecode<'de>>(done: Seq<Seq<u8>>, bb: Seq<u8>, after: Seq<Seq<u8>>, c: u32)
    requires
        box_code(bb) == c,
        !T::spec_accepts(box_payload(bb)),
    ensures
        !all_accepted::<T>(payloads_of(done.push(bb) + after, c)),
{
    lemma_children_push(done, bb, c);
    let ps = payloads_of(done.push(bb), c);
    assert(ps[ps.len() - 1] == box_payload(bb));
    lemma_rejected_stays::<T>(done.push(bb), after, c);
}

impl MvexBox {
    /// The owned box of a view: its children decoded; an error for a malformed
    /// child box, a child that does not decode, a second copy of a child that
    /// occurs once, or a missing required child.
    pub fn try_from(view: &MvexBoxView<'_>) -> (r: Result<MvexBox, Error>)
        ensures
            (r is Ok) == mvex_accepts(view.content@),
            r matches Ok(v) ==> mvex_children_decode(spec_children(view.content@), v),
            spec_children_ok(view.content@) && mvex_known_accepted(spec_children(view.content@)) ==> (match first_dup(
                spec_children(view.content@),
                mvex_once(),
            ) {
                Some(d) => is_duplicate_error(r, d, Some(BoxType::MVEX)),
                None => true,
            }),
    {
        let mut parts = MvexParts::new();
        let mut it = view.boxes();
        let ghost mut done: Seq<Seq<u8>> = Seq::empty();
        loop
            invariant_except_break
                it.data@ == view.content@,
                it.pos <= it.data@.len(),
                spec_children(view.content@) == done + spec_children(it.rest()),
                spec_children_ok(view.content@) == spec_children_ok(it.rest()),
                parts.inv(done),
                first_dup(done, mvex_once()) is None,
            ensures
                spec_children_ok(view.content@),
                spec_children(view.content@) == done,
                parts.inv(done),
                first_dup(done, mvex_once()) is None,
            decreases it.data@.len() - it.pos,
        {
            let ghost rest = it.rest();
            match it.next() {
                None => {
                    assert(done + Seq::<Seq<u8>>::empty() =~= done);
                    break;
                },
                Some(Err(e)) => {
                    return Err(e);
                },
                Some(Ok(b)) => {
                    let ghost bb = b.data@;
                    let t = b.boxtype();
                    let code = t.type_field().0;
                    proof {
                        lemma_children_step(rest);
                        lemma_box_len_bounds(rest);
                        assert(done.push(bb) + spec_children(it.rest()) =~= done + (seq![rest.take(spec_box_len(rest)->0)] + spec_children(rest.skip(spec_box_len(rest)->0))));
                        assert(box_payload(bb) =~= b.spec_payload());
                        assert(box_code(bb) == code);
                        parts.lemma_counts(done);
                        lemma_mvex_once(code);
                        lemma_first_dup_push(done, bb, mvex_once());
                        assert(spec_children(view.content@) == done.push(bb) + spec_children(it.rest()));
                        if first_dup(done.push(bb), mvex_once()) is Some {
                            lemma_first_dup_prefix(done.push(bb), spec_children(it.rest()), mvex_once());
                        }
                    }
                    if code == BoxType::MEHD.type_field().0 {
                        if parts.mehd.is_some() {
                            proof {
                                parts.lemma_dup_mehd(done, bb, spec_children(it.rest()));
                            }
                            return Err(Error::in_box(ErrorKind::BoxDuplicate { duplicate: BoxType::MEHD }, BoxType::MVEX));
                        }
                        let x = match MehdBox::decode(b.payload()) {
                            Ok(x) => x,
                            Err(e) => {
                                proof {
                                    reject_proof::<MehdBox>(done, bb, spec_children(it.rest()), BoxType::MEHD.code());
                                }
                                return Err(e);
                            },
                        };
                        parts.put_mehd(x, Ghost(done), Ghost(bb));
                    } else if code == BoxType::TREX.type_field().0 {
                        let x = match TrexBox::decode(b.payload()) {
                            Ok(x) => x,
                            Err(e) => {
                                proof {
                                    reject_proof::<TrexBox>(done, bb, spec_children(it.rest()), BoxType::TREX.code());
                                }
                                return Err(e);
                            },
                        };
                        parts.push_trexs(x, Ghost(done), Ghost(bb));
                    } else {
                        proof {
                            parts.lemma_skip(done, bb);
                        }
                    }
                    proof {
                        done = done.push(bb);
                    }
                },
            }
        }
        parts.finish(Ghost(done))
    }
}

impl BoxCodec for MvexBox {
    open spec fn spec_boxtype(&self) -> BoxType {
        BoxType::MVEX
    }

    fn boxtype(&self) -> (r: BoxType) {
        BoxType::MVEX
    }
}

impl<'de> BoxDecode<'de> for MvexBox {
    open spec fn spec_accepts(bytes: Seq<u8>) -> bool {
        mvex_accepts(bytes)
    }

    open spec fn spec_decodes(bytes: Seq<u8>, v: Self) -> bool {
        mvex_children_decode(spec_children(bytes), v)
    }

    fn decode(bytes: &'de [u8]) -> (r: Result<Self, Error>) {
        let view = MvexBoxView { content: bytes };
        MvexBox::try_from(&view)
    }
}

impl BoxEncode for MvexBox {
    open spec fn spec_encode(&self) -> Seq<u8> {
        spec_opt_boxed(self.mehd) + spec_boxed_list(self.trexs@)
    }

    open spec fn spec_encodable(&self) -> bool {
        &&& spec_opt_encodable(self.mehd)
        &&& spec_list_encodable(self.trexs@)
        &&& self.spec_encode().len() <= usize::MAX
    }

    fn encoded_len(&self) -> (r: usize) {
        let mut len: usize = 0;
        let ghost ok = self.spec_encodable();
        let ghost l0 = spec_opt_boxed(self.mehd).len();
        let ghost l1 = spec_boxed_list(self.trexs@).len();
        assert(self.spec_encode().len() == l0 + l1);
        let n = opt_boxed_len(&self.mehd);
        proof {
            assert(ok ==> n == l0);
        }
        if n > usize::MAX - len {
            return usize::MAX;
        }
        len = len + n;
        assert(ok ==> len == l0);
        let n = list_boxed_len(&self.trexs);
        proof {
            assert(ok ==> n == l1);
        }
        if n > usize::MAX - len {
            return usize::MAX;
        }
        len = len + n;
        assert(ok ==> len == l0 + l1);
        len
    }

    fn encode_into(&self, bytes: &mut [u8]) -> (r: Result<usize, Error>) {
        let ghost s0 = bytes@;
        let p: usize = 0;
        proof {
            crate::cursor::lemma_splice_empty(s0, 0);
        }
        let ghost a = Seq::<u8>::empty();
        let w = write_opt_box_at(bytes, p, &self.mehd);
        let p = match w {
            Ok(q) => q,
            Err(e) => {
                return Err(e);
            },
        };
        proof {
            lemma_splice_concat(s0, 0, a, spec_opt_boxed(self.mehd));
            assert(a + spec_opt_boxed(self.mehd) =~= Seq::<u8>::empty() + spec_opt_boxed(self.mehd));
        }
        let ghost a = Seq::<u8>::empty() + spec_opt_boxed(self.mehd);
        let w = write_box_list_at(bytes, p, &self.trexs);
        let p = match w {
            Ok(q) => q,
            Err(e) => {
                return Err(e);
            },
        };
        proof {
            lemma_splice_concat(s0, 0, a, spec_boxed_list(self.trexs@));
            assert(a + spec_boxed_list(self.trexs@) =~= Seq::<u8>::empty() + spec_opt_boxed(self.mehd) + spec_boxed_list(self.trexs@));
        }
        Ok(p)
    }
}

/// Decoding the encoding of an owned `mvex` box gives the box back: its Movie
/// Extends Header Box, if any, and its Track Extends Boxes in order, for
/// children whose versions and flags are ones they are read back with.
pub proof fn lemma_mvex_roundtrip(m: MvexBox)
    requires
        m.mehd matches Some(h) ==> h.version <= 1 && h.flags.0 < 0x100_0000 && (h.version == 0
            ==> h.fragment_duration <= u32::MAX),
        forall|i: int| 0 <= i < m.trexs@.len() ==> (#[trigger] m.trexs@[i]).flags.0 < 0x100_0000,
    ensures
        MvexBox::spec_accepts(m.spec_encode()),
        MvexBox::spec_decodes(m.spec_encode(), m),
{
    let tl = m.trexs@;
    let e = m.spec_encode();
    let mc = BoxType::MEHD.code();
    let tc = BoxType::TREX.code();
    assert forall|i: int| 0 <= i < tl.len() implies (#[trigger] tl[i]).spec_boxtype().code() == tc && tl[i].spec_encode().len()
        + 16 <= u64::MAX by {}
    lemma_children_boxed_list(tl, Seq::empty());
    assert(spec_boxed_list(tl) + Seq::<u8>::empty() =~= spec_boxed_list(tl));
    let kt = Seq::new(tl.len(), |i: int| spec_boxed(&tl[i]));
    assert(spec_children(Seq::<u8>::empty()) =~= Seq::<Seq<u8>>::empty());
    assert(spec_children(spec_boxed_list(tl)) =~= kt);
    lemma_payloads_boxed(tl, tc, mc);
    lemma_payloads_boxed(tl, tc, tc);
    let ek = Seq::new(tl.len(), |i: int| tl[i].spec_encode());
    match m.mehd {
        Some(h) => {
            lemma_children_boxed(&h, spec_boxed_list(tl));
            let kh = seq![spec_boxed(&h)];
            assert(spec_children(e) =~= kh + kt);
            lemma_boxed_code_payload(&h);
            let z = Seq::<Seq<u8>>::empty();
            assert(z.push(spec_boxed(&h)) =~= kh);
            lemma_children_push(z, spec_boxed(&h), mc);
            lemma_children_push(z, spec_boxed(&h), tc);
            assert(payloads_of(z, mc) =~= z);
            assert(payloads_of(z, tc) =~= z);
            assert(payloads_of(kh, mc) =~= seq![h.spec_encode()]);
            assert(payloads_of(kh, tc) =~= z);
            lemma_payloads_concat(kh, kt, mc);
            lemma_payloads_concat(kh, kt, tc);
            assert(payloads_of(spec_children(e), mc) =~= seq![h.spec_encode()]);
            assert(payloads_of(spec_children(e), tc) =~= ek);
            lemma_mehd_roundtrip(h);
        },
        None => {
            assert(e =~= spec_boxed_list(tl));
            assert(payloads_of(spec_children(e), mc) =~= Seq::<Seq<u8>>::empty());
            assert(payloads_of(spec_children(e), tc) =~= ek);
        },
    }
    assert forall|i: int| 0 <= i < ek.len() implies TrexBox::spec_accepts(#[trigger] ek[i]) && TrexBox::spec_decodes(ek[i], tl[i]) by {
        lemma_trex_roundtrip(tl[i]);
    }
}

} // verus!
