//! Movie Box (`moov`): the container of a movie's metadata.
use vstd::prelude::*;

use crate::children::{decode_child, decode_required, decode_all, optional_child, required_child, all_accepted, all_decoded, payloads_of, count_code, box_code, box_payload, slot, list_slot, opt_decoded, lemma_slot_other, lemma_slot_fill, lemma_list_other, lemma_list_push, lemma_children_push, lemma_children_step, lemma_count_grows, lemma_rejected_stays, lemma_payloads_count, lemma_slot_unfold, lemma_list_unfold, lemma_slot_empty, lemma_payloads_concat, lemma_payloads_boxed, lemma_boxed_code_payload, opt_kids, opt_payloads, lemma_children_opt_boxed, lemma_payloads_opt_boxed, first_dup, is_duplicate_error, lemma_first_dup_push, lemma_first_dup_prefix};
use crate::codec::{BoxCodec, BoxDecode, BoxEncode, spec_boxed, spec_opt_boxed, spec_boxed_list, spec_opt_encodable, spec_list_encodable, boxed_len, opt_boxed_len, list_boxed_len, write_box_at, write_opt_box_at, write_box_list_at, lemma_boxed_len, lemma_children_boxed, lemma_children_boxed_list};
use crate::cursor::{splice, lemma_splice_concat};
use crate::error::{Error, ErrorKind};
use crate::rawbox::{BoxIter, spec_children, spec_children_ok, spec_box_len, lemma_box_len_bounds};
use crate::types::BoxType;
use crate::boxes::mvhd::{MvhdBox, lemma_mvhd_roundtrip};
use crate::boxes::stsd::{raw_boxes_wf, raw_box_framed};
use crate::boxes::trak::{TrakBox, TrakBoxView, lemma_trak_roundtrip};
use crate::boxes::mvex::{MvexBox, MvexBoxView, lemma_mvex_roundtrip};

verus! {

/// Movie Box (`moov`) over the bytes of its child boxes.
#[derive(Debug)]
pub struct MoovBoxView<'a> {
    /// The child boxes.
    pub content: &'a [u8],
}

impl<'a> MoovBoxView<'a> {
    /// An iterator over the child boxes.
    pub fn boxes(&self) -> (r: BoxIter<'a>)
        ensures
            r.data@ == self.content@,
            r.pos == 0,
            r.rest() == self.content@,
    {
        BoxIter::new(self.content)
    }

    /// The Movie Header Box (`mvhd`), which is required.
    pub fn mvhd(&self) -> (r: Result<MvhdBox, Error>)
        ensures
            required_child(self.content@, BoxType::MVHD, r),
    {
        decode_required(self.content, BoxType::MVHD, BoxType::MOOV)
    }

    /// Every track Box (`trak`), in order; an error when a child box is
    /// malformed or one of them does not decode.
    pub fn traks(&self) -> (r: Result<Vec<TrakBoxView<'a>>, Error>)
        ensures
            (r is Ok) == (spec_children_ok(self.content@) && all_accepted::<TrakBoxView>(payloads_of(spec_children(self.content@), BoxType::TRAK.code()))),
            r matches Ok(v) ==> all_decoded(payloads_of(spec_children(self.content@), BoxType::TRAK.code()), v@),
    {
        decode_all(self.content, BoxType::TRAK)
    }

    /// The Movie Extends Box (`mvex`), if any.
    pub fn mvex(&self) -> (r: Result<Option<MvexBoxView<'a>>, Error>)
        ensures
            optional_child(self.content@, BoxType::MVEX, r),
    {
        decode_child(self.content, BoxType::MVEX)
    }
}

impl BoxCodec for MoovBoxView<'_> {
    open spec fn spec_boxtype(&self) -> BoxType {
        BoxType::MOOV
    }

    fn boxtype(&self) -> (r: BoxType) {
        BoxType::MOOV
    }
}

impl<'de> BoxDecode<'de> for MoovBoxView<'de> {
    open spec fn spec_accepts(bytes: Seq<u8>) -> bool {
        true
    }

    open spec fn spec_decodes(bytes: Seq<u8>, v: Self) -> bool {
        v.content@ == bytes
    }

    fn decode(bytes: &'de [u8]) -> (r: Result<Self, Error>) {
        Ok(MoovBoxView { content: bytes })
    }
}

/// Movie Box (`moov`) with its child boxes decoded.
#[derive(Debug, Clone)]
pub struct MoovBox {
    /// The Movie Header Box (`mvhd`).
    pub mvhd: MvhdBox,
    /// Track Box (`trak`)s.
    pub traks: Vec<TrakBox>,
    /// The Movie Extends Box (`mvex`), if any.
    pub mvex: Option<MvexBox>,
}

/// Whether the child boxes `bs` make an owned `moov` box: the counts
/// its child types allow, and every child of a known type decoding.
pub open spec fn moov_children_ok(bs: Seq<Seq<u8>>) -> bool {
    &&& count_code(bs, BoxType::MVHD.code()) == 1
        &&& count_code(bs, BoxType::TRAK.code()) >= 1
        &&& count_code(bs, BoxType::MVEX.code()) <= 1
        &&& all_accepted::<MvhdBox>(payloads_of(bs, BoxType::MVHD.code()))
        &&& all_accepted::<TrakBox>(payloads_of(bs, BoxType::TRAK.code()))
        &&& all_accepted::<MvexBox>(payloads_of(bs, BoxType::MVEX.code()))
}

/// The payloads an owned `moov` box accepts: well-formed child boxes
/// that make such a box.
pub open spec fn moov_accepts(s: Seq<u8>) -> bool {
    spec_children_ok(s) && moov_children_ok(spec_children(s))
}

/// The codes of the children of a `moov` box that may occur once.
pub open spec fn moov_once() -> Seq<u32> {
    seq![BoxType::MVHD.code(), BoxType::MVEX.code()]
}

/// Whether every child of a known type among `bs` decodes.
pub open spec fn moov_known_accepted(bs: Seq<Seq<u8>>) -> bool {
    &&& all_accepted::<MvhdBox>(payloads_of(bs, BoxType::MVHD.code()))
    &&& all_accepted::<TrakBox>(payloads_of(bs, BoxType::TRAK.code()))
    &&& all_accepted::<MvexBox>(payloads_of(bs, BoxType::MVEX.code()))
}

/// The error an owned `moov` box gives for well-formed children that each
/// decode: `BoxDuplicate` for the first `mvhd` or `mvex` that comes a second
/// time, else `BoxMissing` for a missing `mvhd`, then for a missing `trak`,
/// each in the `moov` box.
pub open spec fn moov_error(bs: Seq<Seq<u8>>, r: Result<MoovBox, Error>) -> bool {
    match first_dup(bs, moov_once()) {
        Some(d) => is_duplicate_error(r, d, Some(BoxType::MOOV)),
        None => {
            &&& count_code(bs, BoxType::MVHD.code()) == 0 ==> r == Err::<MoovBox, Error>(Error {
                kind: ErrorKind::BoxMissing { required: BoxType::MVHD },
                offset: None,
                box_type: Some(BoxType::MOOV),
            })
            &&& count_code(bs, BoxType::MVHD.code()) >= 1 && count_code(bs, BoxType::TRAK.code()) == 0 ==> r == Err::<MoovBox, Error>(Error {
                kind: ErrorKind::BoxMissing { required: BoxType::TRAK },
                offset: None,
                box_type: Some(BoxType::MOOV),
            })
        },
    }
}

/// Which codes are in [`moov_once`].
proof fn lemma_moov_once(c: u32)
    ensures
        moov_once().contains(c) == (c == BoxType::MVHD.code() || c == BoxType::MVEX.code()),
{
    if c == BoxType::MVHD.code() {
        assert(moov_once()[0] == c);
    } else if c == BoxType::MVEX.code() {
        assert(moov_once()[1] == c);
    }
}

/// Whether `v` is the owned `moov` box of the child boxes `bs`: each
/// field what its child boxes decode to.
pub open spec fn moov_children_decode(bs: Seq<Seq<u8>>, v: MoovBox) -> bool {
    &&& MvhdBox::spec_decodes(payloads_of(bs, BoxType::MVHD.code())[0], v.mvhd)
        &&& all_decoded::<TrakBox>(payloads_of(bs, BoxType::TRAK.code()), v.traks@)
        &&& opt_decoded::<MvexBox>(payloads_of(bs, BoxType::MVEX.code()), v.mvex)
}

/// The children of a `moov` box gathered so far.
struct MoovParts {
    mvhd: Option<MvhdBox>,
    mvex: Option<MvexBox>,
    traks: Vec<TrakBox>,
}

impl MoovParts {
    /// The children gathered from the child boxes `done`.
    closed spec fn inv(&self, done: Seq<Seq<u8>>) -> bool {
        &&& slot::<MvhdBox>(done, BoxType::MVHD.code(), self.mvhd)
        &&& slot::<MvexBox>(done, BoxType::MVEX.code(), self.mvex)
        &&& list_slot::<TrakBox>(done, BoxType::TRAK.code(), self.traks@)
    }

    /// Nothing gathered from no boxes.
    fn new() -> (r: MoovParts)
        ensures
            r.inv(Seq::empty()),
    {
        proof {
            lemma_slot_empty::<MvhdBox>(BoxType::MVHD.code());
            lemma_slot_empty::<TrakBox>(BoxType::TRAK.code());
            lemma_slot_empty::<MvexBox>(BoxType::MVEX.code());
        }
        MoovParts { mvhd: None, mvex: None, traks: Vec::new() }
    }

    /// How many boxes of each type the gathered children came from.
    proof fn lemma_counts(&self, done: Seq<Seq<u8>>)
        requires
            self.inv(done),
        ensures
            (self.mvhd is None) == (count_code(done, BoxType::MVHD.code()) == 0),
            count_code(done, BoxType::MVHD.code()) <= 1,
            (self.mvex is None) == (count_code(done, BoxType::MVEX.code()) == 0),
            count_code(done, BoxType::MVEX.code()) <= 1,
            self.traks@.len() == count_code(done, BoxType::TRAK.code()),
    {
        lemma_slot_unfold::<MvhdBox>(done, BoxType::MVHD.code(), self.mvhd);
        lemma_payloads_count(done, BoxType::MVHD.code());
        lemma_slot_unfold::<MvexBox>(done, BoxType::MVEX.code(), self.mvex);
        lemma_payloads_count(done, BoxType::MVEX.code());
        lemma_list_unfold::<TrakBox>(done, BoxType::TRAK.code(), self.traks@);
        lemma_payloads_count(done, BoxType::TRAK.code());
    }

    /// A box of another type changes nothing.
    proof fn lemma_skip(&self, done: Seq<Seq<u8>>, bb: Seq<u8>)
        requires
            self.inv(done),
            box_code(bb) != BoxType::MVHD.code(),
            box_code(bb) != BoxType::TRAK.code(),
            box_code(bb) != BoxType::MVEX.code(),
        ensures
            self.inv(done.push(bb)),
    {
            lemma_slot_other::<MvhdBox>(done, bb, BoxType::MVHD.code(), self.mvhd);
            lemma_slot_other::<MvexBox>(done, bb, BoxType::MVEX.code(), self.mvex);
            lemma_list_other::<TrakBox>(done, bb, BoxType::TRAK.code(), self.traks@);
    }

    /// Gathers the `mvhd` box `bb`, the first of its kind.
    fn put_mvhd(&mut self, x: MvhdBox, Ghost(done): Ghost<Seq<Seq<u8>>>, Ghost(bb): Ghost<Seq<u8>>)
        requires
            old(self).inv(done),
            old(self).mvhd is None,
            box_code(bb) == BoxType::MVHD.code(),
            MvhdBox::spec_accepts(box_payload(bb)),
            MvhdBox::spec_decodes(box_payload(bb), x),
        ensures
            final(self).inv(done.push(bb)),
    {
        proof {
            lemma_slot_unfold::<MvhdBox>(done, BoxType::MVHD.code(), old(self).mvhd);
            lemma_payloads_count(done, BoxType::MVHD.code());
            lemma_slot_fill::<MvhdBox>(done, bb, BoxType::MVHD.code(), x);
            lemma_slot_other::<MvexBox>(done, bb, BoxType::MVEX.code(), old(self).mvex);
            lemma_list_other::<TrakBox>(done, bb, BoxType::TRAK.code(), old(self).traks@);
        }
        self.mvhd = Some(x);
    }

    /// A second `mvhd` box after `done` makes the children no `moov` box.
    proof fn lemma_dup_mvhd(&self, done: Seq<Seq<u8>>, bb: Seq<u8>, after: Seq<Seq<u8>>)
        requires
            self.inv(done),
            self.mvhd is Some,
            box_code(bb) == BoxType::MVHD.code(),
        ensures
            !moov_children_ok(done.push(bb) + after),
    {
        lemma_slot_unfold::<MvhdBox>(done, BoxType::MVHD.code(), self.mvhd);
        lemma_payloads_count(done, BoxType::MVHD.code());
        lemma_children_push(done, bb, BoxType::MVHD.code());
        lemma_count_grows(done.push(bb), after, BoxType::MVHD.code());
    }

    /// Gathers the `mvex` box `bb`, the first of its kind.
    fn put_mvex(&mut self, x: MvexBox, Ghost(done): Ghost<Seq<Seq<u8>>>, Ghost(bb): Ghost<Seq<u8>>)
        requires
            old(self).inv(done),
            old(self).mvex is None,
            box_code(bb) == BoxType::MVEX.code(),
            MvexBox::spec_accepts(box_payload(bb)),
            MvexBox::spec_decodes(box_payload(bb), x),
        ensures
            final(self).inv(done.push(bb)),
    {
        proof {
            lemma_slot_unfold::<MvexBox>(done, BoxType::MVEX.code(), old(self).mvex);
            lemma_payloads_count(done, BoxType::MVEX.code());
            lemma_slot_fill::<MvexBox>(done, bb, BoxType::MVEX.code(), x);
            lemma_slot_other::<MvhdBox>(done, bb, BoxType::MVHD.code(), old(self).mvhd);
            lemma_list_other::<TrakBox>(done, bb, BoxType::TRAK.code(), old(self).traks@);
        }
        self.mvex = Some(x);
    }

    /// A second `mvex` box after `done` makes the children no `moov` box.
    proof fn lemma_dup_mvex(&self, done: Seq<Seq<u8>>, bb: Seq<u8>, after: Seq<Seq<u8>>)
        requires
            self.inv(done),
            self.mvex is Some,
            box_code(bb) == BoxType::MVEX.code(),
        ensures
            !moov_children_ok(done.push(bb) + after),
    {
        lemma_slot_unfold::<MvexBox>(done, BoxType::MVEX.code(), self.mvex);
        lemma_payloads_count(done, BoxType::MVEX.code());
        lemma_children_push(done, bb, BoxType::MVEX.code());
        lemma_count_grows(done.push(bb), after, BoxType::MVEX.code());
    }

    /// Gathers the `trak` box `bb`.
    fn push_traks(&mut self, x: TrakBox, Ghost(done): Ghost<Seq<Seq<u8>>>, Ghost(bb): Ghost<Seq<u8>>)
        requires
            old(self).inv(done),
            box_code(bb) == BoxType::TRAK.code(),
            TrakBox::spec_accepts(box_payload(bb)),
            TrakBox::spec_decodes(box_payload(bb), x),
        ensures
            final(self).inv(done.push(bb)),
    {
        proof {
            lemma_list_push::<TrakBox>(done, bb, BoxType::TRAK.code(), old(self).traks@, x);
            lemma_slot_other::<MvhdBox>(done, bb, BoxType::MVHD.code(), old(self).mvhd);
            lemma_slot_other::<MvexBox>(done, bb, BoxType::MVEX.code(), old(self).mvex);
        }
        self.traks.push(x);
    }

    /// The owned box from the children gathered from all child boxes `done`;
    /// an error when a required child is missing.
    fn finish(self, Ghost(done): Ghost<Seq<Seq<u8>>>) -> (r: Result<MoovBox, Error>)
        requires
            self.inv(done),
        ensures
            (r is Ok) == moov_children_ok(done),
            r matches Ok(v) ==> moov_children_decode(done, v),
            first_dup(done, moov_once()) is None ==> moov_error(done, r),
    {
        proof {
            lemma_slot_unfold::<MvhdBox>(done, BoxType::MVHD.code(), self.mvhd);
            lemma_payloads_count(done, BoxType::MVHD.code());
            lemma_slot_unfold::<MvexBox>(done, BoxType::MVEX.code(), self.mvex);
            lemma_payloads_count(done, BoxType::MVEX.code());
            lemma_list_unfold::<TrakBox>(done, BoxType::TRAK.code(), self.traks@);
        }
        let mvhd = match self.mvhd {
            Some(x) => x,
            None => {
                return Err(Error::in_box(ErrorKind::BoxMissing { required: BoxType::MVHD }, BoxType::MOOV));
            },
        };
        proof {
            self.lemma_counts(done);
        }
        if self.traks.len() == 0 {
            return Err(Error::in_box(ErrorKind::BoxMissing { required: BoxType::TRAK }, BoxType::MOOV));
        }
        let MoovParts { traks, mvex, .. } = self;
        Ok(MoovBox { mvhd, traks, mvex })
    }
}

/// A payload of type `c` that does not decode makes the children no `moov` box.
proof fn reject_proof<'de, T: BoxDecode<'de>>(done: Seq<Seq<u8>>, bb: Seq<u8>, after: Seq<Seq<u8>>, c: u32)
    requires
        box_code(bb) == c,
        !T::spec_accepts(box_payload(bb)),
    ensures
        !all_accepted::<T>(payloads_of(done.push(bb) + after, c)),
{
    lemma_children_push(done, bb, c);
    let ps = payloads_of(done.push(bb), c);
    assert(ps[ps.len() - 1] == box_payload(bb));
    lemma_rejected_stays::<T>(done.push(bb), after, c);
}

impl MoovBox {
    /// The owned box of a view: its children decoded; an error for a malformed
    /// child box, a child that does not decode, a second copy of a child that
    /// occurs once, or a missing required child.
    pub fn try_from(view: &MoovBoxView<'_>) -> (r: Result<MoovBox, Error>)
        ensures
            (r is Ok) == moov_accepts(view.content@),
            r matches Ok(v) ==> moov_children_decode(spec_children(view.content@), v),
            spec_children_ok(view.content@) && moov_known_accepted(spec_children(view.content@)) ==> moov_error(
                spec_children(view.content@),
                r,
            ),
    {
        let mut parts = MoovParts::new();
        let mut it = view.boxes();
        let ghost mut done: Seq<Seq<u8>> = Seq::empty();
        loop
            invariant_except_break
                it.data@ == view.content@,
                it.pos <= it.data@.len(),
                spec_children(view.content@) == done + spec_children(it.rest()),
                spec_children_ok(view.content@) == spec_children_ok(it.rest()),
                parts.inv(done),
                first_dup(done, moov_once()) is None,
            ensures
                spec_children_ok(view.content@),
                spec_children(view.content@) == done,
                parts.inv(done),
                first_dup(done, moov_once()) is None,
            decreases it.data@.len() - it.pos,
        {
            let ghost rest = it.rest();
            match it.next() {
                None => {
                    assert(done + Seq::<Seq<u8>>::empty() =~= done);
                    break;
                },
                Some(Err(e)) => {
                    return Err(e);
                },
                Some(Ok(b)) => {
                    let ghost bb = b.data@;
                    let t = b.boxtype();
                    let code = t.type_field().0;
                    proof {
                        lemma_children_step(rest);
                        lemma_box_len_bounds(rest);
                        assert(done.push(bb) + spec_children(it.rest()) =~= done + (seq![rest.take(spec_box_len(rest)->0)] + spec_children(rest.skip(spec_box_len(rest)->0))));
                        assert(box_payload(bb) =~= b.spec_payload());
                        assert(box_code(bb) == code);
                        parts.lemma_counts(done);
                        lemma_moov_once(code);
                        lemma_first_dup_push(done, bb, moov_once());
                        assert(spec_children(view.content@) == done.push(bb) + spec_children(it.rest()));
                        if first_dup(done.push(bb), moov_once()) is Some {
                            lemma_first_dup_prefix(done.push(bb), spec_children(it.rest()), moov_once());
                        }
                    }
                    if code == BoxType::MVHD.type_field().0 {
                        if parts.mvhd.is_some() {
                            proof {
                                parts.lemma_dup_mvhd(done, bb, spec_children(it.rest()));
                            }
                            return Err(Error::in_box(ErrorKind::BoxDuplicate { duplicate: BoxType::MVHD }, BoxType::MOOV));
                        }
                        let x = match MvhdBox::decode(b.payload()) {
                            Ok(x) => x,
                            Err(e) => {
                                proof {
                                    reject_proof::<MvhdBox>(done, bb, spec_children(it.rest()), BoxType::MVHD.code());
                                }
                                return Err(e);
                            },
                        };
                        parts.put_mvhd(x, Ghost(done), Ghost(bb));
                    } else if code == BoxType::TRAK.type_field().0 {
                        let x = match TrakBox::decode(b.payload()) {
                            Ok(x) => x,
                            Err(e) => {
                                proof {
                                    reject_proof::<TrakBox>(done, bb, spec_children(it.rest()), BoxType::TRAK.code());
                                }
                                return Err(e);
                            },
                        };
                        parts.push_traks(x, Ghost(done), Ghost(bb));
                    } else if code == BoxType::MVEX.type_field().0 {
                        if parts.mvex.is_some() {
                            proof {
                                parts.lemma_dup_mvex(done, bb, spec_children(it.rest()));
                            }
                            return Err(Error::in_box(ErrorKind::BoxDuplicate { duplicate: BoxType::MVEX }, BoxType::MOOV));
                        }
                        let x = match MvexBox::decode(b.payload()) {
                            Ok(x) => x,
                            Err(e) => {
                                proof {
                                    reject_proof::<MvexBox>(done, bb, spec_children(it.rest()), BoxType::MVEX.code());
                                }
                                return Err(e);
                            },
                        };
                        parts.put_mvex(x, Ghost(done), Ghost(bb));
                    } else {
                        proof {
                            parts.lemma_skip(done, bb);
                        }
                    }
                    proof {
                        done = done.push(bb);
                    }
                },
            }
        }
        parts.finish(Ghost(done))
    }
}

impl BoxCodec for MoovBox {
    open spec fn spec_boxtype(&self) -> BoxType {
        BoxType::MOOV
    }

    fn boxtype(&self) -> (r: BoxType) {
        BoxType::MOOV
    }
}

impl<'de> BoxDecode<'de> for MoovBox {
    open spec fn spec_accepts(bytes: Seq<u8>) -> bool {
        moov_accepts(bytes)
    }

    open spec fn spec_decodes(bytes: Seq<u8>, v: Self) -> bool {
        moov_children_decode(spec_children(bytes), v)
    }

    fn decode(bytes: &'de [u8]) -> (r: Result<Self, Error>) {
        let view = MoovBoxView { content: bytes };
        MoovBox::try_from(&view)
    }
}

impl BoxEncode for MoovBox {
    open spec fn spec_encode(&self) -> Seq<u8> {
        spec_boxed(&self.mvhd) + spec_boxed_list(self.traks@) + spec_opt_boxed(self.mvex)
    }

    open spec fn spec_encodable(&self) -> bool {
        &&& self.mvhd.spec_encodable()
        &&& spec_list_encodable(self.traks@)
        &&& spec_opt_encodable(self.mvex)
        &&& self.spec_encode().len() <= usize::MAX
    }

    fn encoded_len(&self) -> (r: usize) {
        let mut len: usize = 0;
        let ghost ok = self.spec_encodable();
        let ghost l0 = spec_boxed(&self.mvhd).len();
        let ghost l1 = spec_boxed_list(self.traks@).len();
        let ghost l2 = spec_opt_boxed(self.mvex).len();
        assert(self.spec_encode().len() == l0 + l1 + l2);
        let n = boxed_len(&self.mvhd);
        proof {
            lemma_boxed_len(&self.mvhd);
            assert(ok ==> n == l0);
        }
        if n > usize::MAX - len {
            return usize::MAX;
        }
        len = len + n;
        assert(ok ==> len == l0);
        let n = list_boxed_len(&self.traks);
        proof {
            assert(ok ==> n == l1);
        }
        if n > usize::MAX - len {
            return usize::MAX;
        }
        len = len + n;
        assert(ok ==> len == l0 + l1);
        let n = opt_boxed_len(&self.mvex);
        proof {
            assert(ok ==> n == l2);
        }
        if n > usize::MAX - len {
            return usize::MAX;
        }
        len = len + n;
        assert(ok ==> len == l0 + l1 + l2);
        len
    }

    fn encode_into(&self, bytes: &mut [u8]) -> (r: Result<usize, Error>) {
        let ghost s0 = bytes@;
        let p: usize = 0;
        proof {
            crate::cursor::lemma_splice_empty(s0, 0);
        }
        let ghost a = Seq::<u8>::empty();
        let w = write_box_at(bytes, p, &self.mvhd);
        let p = match w {
            Ok(q) => q,
            Err(e) => {
                return Err(e);
            },
        };
        proof {
            lemma_splice_concat(s0, 0, a, spec_boxed(&self.mvhd));
            assert(a + spec_boxed(&self.mvhd) =~= Seq::<u8>::empty() + spec_boxed(&self.mvhd));
        }
        let ghost a = Seq::<u8>::empty() + spec_boxed(&self.mvhd);
        let w = write_box_list_at(bytes, p, &self.traks);
        let p = match w {
            Ok(q) => q,
            Err(e) => {
                return Err(e);
            },
        };
        proof {
            lemma_splice_concat(s0, 0, a, spec_boxed_list(self.traks@));
            assert(a + spec_boxed_list(self.traks@) =~= Seq::<u8>::empty() + spec_boxed(&self.mvhd) + spec_boxed_list(self.traks@));
        }
        let ghost a = Seq::<u8>::empty() + spec_boxed(&self.mvhd) + spec_boxed_list(self.traks@);
        let w = write_opt_box_at(bytes, p, &self.mvex);
        let p = match w {
            Ok(q) => q,
            Err(e) => {
                return Err(e);
            },
        };
        proof {
            lemma_splice_concat(s0, 0, a, spec_opt_boxed(self.mvex));
            assert(a + spec_opt_boxed(self.mvex) =~= Seq::<u8>::empty() + spec_boxed(&self.mvhd) + spec_boxed_list(self.traks@) + spec_opt_boxed(self.mvex));
        }
        Ok(p)
    }
}

/// The child boxes of an encoded `moov` box: the Movie Header Box, the Track
/// Boxes, then the Movie Extends Box.
proof fn lemma_moov_children(m: MoovBox)
    requires
        m.mvhd.spec_encode().len() + 16 <= u64::MAX,
        forall|i: int| 0 <= i < m.traks@.len() ==> (#[trigger] m.traks@[i]).spec_encode().len() + 16 <= u64::MAX,
        m.mvex matches Some(x) ==> x.spec_encode().len() + 16 <= u64::MAX,
    ensures
        spec_children(m.spec_encode()) == seq![spec_boxed(&m.mvhd)] + (Seq::new(
            m.traks@.len(),
            |i: int| spec_boxed(&m.traks@[i]),
        ) + opt_kids(m.mvex)),
        spec_children_ok(m.spec_encode()),
{
    let tl = m.traks@;
    assert forall|i: int| 0 <= i < tl.len() implies (#[trigger] tl[i]).spec_encode().len() + 16 <= u64::MAX by {}
    lemma_children_opt_boxed(m.mvex, Seq::empty());
    assert(spec_opt_boxed(m.mvex) + Seq::<u8>::empty() =~= spec_opt_boxed(m.mvex));
    assert(spec_children(Seq::<u8>::empty()) =~= Seq::<Seq<u8>>::empty());
    assert(opt_kids(m.mvex) + Seq::<Seq<u8>>::empty() =~= opt_kids(m.mvex));
    lemma_children_boxed_list(tl, spec_opt_boxed(m.mvex));
    lemma_children_boxed(&m.mvhd, spec_boxed_list(tl) + spec_opt_boxed(m.mvex));
    assert(m.spec_encode() =~= spec_boxed(&m.mvhd) + (spec_boxed_list(tl) + spec_opt_boxed(m.mvex)));
}

/// The payloads of a code among the child boxes of an encoded `moov` box.
proof fn lemma_moov_payloads(m: MoovBox, c: u32)
    requires
        m.mvhd.spec_encode().len() + 16 <= u64::MAX,
        forall|i: int| 0 <= i < m.traks@.len() ==> (#[trigger] m.traks@[i]).spec_encode().len() + 16 <= u64::MAX,
        m.mvex matches Some(x) ==> x.spec_encode().len() + 16 <= u64::MAX,
    ensures
        ({
            let bs = seq![spec_boxed(&m.mvhd)] + (Seq::new(m.traks@.len(), |i: int| spec_boxed(&m.traks@[i]))
                + opt_kids(m.mvex));
            let ph = if c == BoxType::MVHD.code() { seq![m.mvhd.spec_encode()] } else { Seq::<Seq<u8>>::empty() };
            let pt = if c == BoxType::TRAK.code() {
                Seq::new(m.traks@.len(), |i: int| m.traks@[i].spec_encode())
            } else {
                Seq::<Seq<u8>>::empty()
            };
            &&& payloads_of(bs, c) == ph + (pt + opt_payloads(m.mvex, c))
            &&& count_code(bs, c) == ph.len() + pt.len() + opt_payloads(m.mvex, c).len()
        }),
{
    let tl = m.traks@;
    let tc = BoxType::TRAK.code();
    assert forall|i: int| 0 <= i < tl.len() implies (#[trigger] tl[i]).spec_boxtype().code() == tc && tl[i].spec_encode().len()
        + 16 <= u64::MAX by {}
    let kh = seq![spec_boxed(&m.mvhd)];
    let kt = Seq::new(tl.len(), |i: int| spec_boxed(&tl[i]));
    let kx = opt_kids(m.mvex);
    let z = Seq::<Seq<u8>>::empty();
    assert(z.push(spec_boxed(&m.mvhd)) =~= kh);
    assert(payloads_of(z, c) =~= z);
    lemma_children_push(z, spec_boxed(&m.mvhd), c);
    lemma_boxed_code_payload(&m.mvhd);
    lemma_payloads_boxed(tl, tc, c);
    lemma_payloads_opt_boxed(m.mvex, c);
    lemma_payloads_concat(kt, kx, c);
    lemma_payloads_concat(kh, kt + kx, c);
    if c == BoxType::MVHD.code() {
        assert(payloads_of(kh, c) =~= seq![m.mvhd.spec_encode()]);
    } else {
        assert(payloads_of(kh, c) =~= z);
    }
}

/// Decoding the encoding of an owned `moov` box gives the box back: its Movie
/// Header Box, its Track Boxes in order (at least one) and its Movie Extends
/// Box, for children that are read back as they are (see their own laws) and whose
/// boxes fit a 64-bit size.
#[verifier::spinoff_prover]
#[verifier::rlimit(80)]
pub proof fn lemma_moov_roundtrip(m: MoovBox)
    requires
        m.traks@.len() >= 1,
        m.mvhd.version <= 1,
        m.mvhd.flags.0 < 0x100_0000,
        m.mvhd.version == 0 ==> m.mvhd.creation_time.0 <= u32::MAX && m.mvhd.modification_time.0 <= u32::MAX
            && m.mvhd.duration <= u32::MAX,
        forall|i: int| 0 <= i < m.traks@.len() ==> raw_boxes_wf((#[trigger] m.traks@[i]).boxes@) && (forall|j: int|
            0 <= j < m.traks@[i].boxes@.len() ==> raw_box_framed(#[trigger] m.traks@[i].boxes@[j]))
            && m.traks@[i].spec_encode().len() + 16 <= u64::MAX,
        m.mvex matches Some(x) ==> (x.mehd matches Some(h) ==> h.version <= 1 && h.flags.0 < 0x100_0000 && (h.version
            == 0 ==> h.fragment_duration <= u32::MAX)) && (forall|i: int| 0 <= i < x.trexs@.len()
            ==> (#[trigger] x.trexs@[i]).flags.0 < 0x100_0000) && x.spec_encode().len() + 16 <= u64::MAX,
    ensures
        MoovBox::spec_accepts(m.spec_encode()),
        MoovBox::spec_decodes(m.spec_encode(), m),
{
    let tl = m.traks@;
    let hc = BoxType::MVHD.code();
    let tc = BoxType::TRAK.code();
    let xc = BoxType::MVEX.code();
    assert(m.mvhd.spec_encode().len() + 16 <= u64::MAX);
    assert forall|i: int| 0 <= i < tl.len() implies (#[trigger] tl[i]).spec_encode().len() + 16 <= u64::MAX by {}
    lemma_moov_children(m);
    lemma_moov_payloads(m, hc);
    lemma_moov_payloads(m, tc);
    lemma_moov_payloads(m, xc);
    let bs = spec_children(m.spec_encode());
    let ek = Seq::new(tl.len(), |i: int| tl[i].spec_encode());
    assert(payloads_of(bs, hc) =~= seq![m.mvhd.spec_encode()]);
    assert(payloads_of(bs, tc) =~= ek);
    assert(payloads_of(bs, xc) =~= opt_payloads(m.mvex, xc));
    lemma_mvhd_roundtrip(m.mvhd);
    assert forall|i: int| 0 <= i < ek.len() implies TrakBox::spec_accepts(#[trigger] ek[i]) && TrakBox::spec_decodes(ek[i], tl[i]) by {
        lemma_trak_roundtrip(tl[i]);
    }
    if let Some(x) = m.mvex {
        lemma_mvex_roundtrip(x);
    }
}

} // verus!
