//! Edit Box (`edts`): the container of a track's edit list.
use vstd::prelude::*;

use crate::children::{first_dup, is_duplicate_error, lemma_first_dup_push, lemma_first_dup_prefix, unique_child, decode_unique_child, decode_child, decode_required, decode_all, optional_child, required_child, all_accepted, all_decoded, payloads_of, count_code, box_code, box_payload, slot, list_slot, opt_decoded, lemma_slot_other, lemma_slot_fill, lemma_list_other, lemma_list_push, lemma_children_push, lemma_children_step, lemma_count_grows, lemma_rejected_stays, lemma_payloads_count, lemma_slot_unfold, lemma_list_unfold, lemma_slot_empty};
use crate::codec::{BoxCodec, BoxDecode, BoxEncode, spec_boxed, spec_opt_boxed, spec_boxed_list, spec_opt_encodable, spec_list_encodable, boxed_len, opt_boxed_len, list_boxed_len, write_box_at, write_opt_box_at, write_box_list_at, lemma_boxed_len};
use crate::cursor::{splice, lemma_splice_concat};
use crate::error::{Error, ErrorKind};
use crate::rawbox::{BoxIter, spec_children, spec_children_ok, spec_box_len, lemma_box_len_bounds};
use crate::types::BoxType;
use crate::boxes::elst::{ElstBox, ElstBoxView};

verus! {

/// Edit Box (`edts`) over the bytes of its child boxes.
#[derive(Debug)]
pub struct EdtsBoxView<'a> {
    /// The child boxes.
    pub content: &'a [u8],
}

impl<'a> EdtsBoxView<'a> {
    /// An iterator over the child boxes.
    pub fn boxes(&self) -> (r: BoxIter<'a>)
        ensures
            r.data@ == self.content@,
            r.pos == 0,
            r.rest() == self.content@,
    {
        BoxIter::new(self.content)
    }

    /// The Edit List Box (`elst`), if any.
    pub fn elst(&self) -> (r: Result<Option<ElstBoxView<'a>>, Error>)
        ensures
            unique_child(self.content@, BoxType::ELST, BoxType::EDTS, r),
    {
        decode_unique_child(self.content, BoxType::ELST, BoxType::EDTS)
    }
}

impl BoxCodec for EdtsBoxView<'_> {
    open spec fn spec_boxtype(&self) -> BoxType {
        BoxType::EDTS
    }

    fn boxtype(&self) -> (r: BoxType) {
        BoxType::EDTS
    }
}

impl<'de> BoxDecode<'de> for EdtsBoxView<'de> {
    open spec fn spec_accepts(bytes: Seq<u8>) -> bool {
        true
    }

    open spec fn spec_decodes(bytes: Seq<u8>, v: Self) -> bool {
        v.content@ == bytes
    }

    fn decode(bytes: &'de [u8]) -> (r: Result<Self, Error>) {
        Ok(EdtsBoxView { content: bytes })
    }
}

/// Edit Box (`edts`) with its edit list decoded.
#[derive(Debug, Clone)]
pub struct EdtsBox {
    /// The Edit List Box (`elst`), if any.
    pub elst: Option<ElstBox>,
}

/// Whether the child boxes `bs` make an owned `edts` box: the counts
/// its child types allow, and every child of a known type decoding.
pub open spec fn edts_children_ok(bs: Seq<Seq<u8>>) -> bool {
    &&& count_code(bs, BoxType::ELST.code()) <= 1
        &&& all_accepted::<ElstBox>(payloads_of(bs, BoxType::ELST.code()))
}

/// The payloads an owned `edts` box accepts: well-formed child boxes
/// that make such a box.
pub open spec fn edts_accepts(s: Seq<u8>) -> bool {
    spec_children_ok(s) && edts_children_ok(spec_children(s))
}

/// Whether `v` is the owned `edts` box of the child boxes `bs`: each
/// field what its child boxes decode to.
pub open spec fn edts_children_decode(bs: Seq<Seq<u8>>, v: EdtsBox) -> bool {
    &&& opt_decoded::<ElstBox>(payloads_of(bs, BoxType::ELST.code()), v.elst)
}

/// The code of the child of a `edts` box that occurs once.
pub open spec fn edts_once() -> Seq<u32> {
    seq![BoxType::ELST.code()]
}

/// Which codes are in [`edts_once`].
proof fn lemma_edts_once(c: u32)
    ensures
        edts_once().contains(c) == (c == BoxType::ELST.code()),
{
    if c == BoxType::ELST.code() {
        assert(edts_once()[0] == c);
    }
}

/// Whether every child of a known type among `bs` decodes.
pub open spec fn edts_known_accepted(bs: Seq<Seq<u8>>) -> bool {
    &&& all_accepted::<ElstBox>(payloads_of(bs, BoxType::ELST.code()))
}

/// The children of a `edts` box gathered so far.
struct EdtsParts {
    elst: Option<ElstBox>,

}

impl EdtsParts {
    /// The children gathered from the child boxes `done`.
    closed spec fn inv(&self, done: Seq<Seq<u8>>) -> bool {
        &&& slot::<ElstBox>(done, BoxType::ELST.code(), self.elst)
    }

    /// Whether a `elst` box came among the gathered children.
    proof fn lemma_counts(&self, done: Seq<Seq<u8>>)
        requires
            self.inv(done),
        ensures
            (self.elst is None) == (count_code(done, BoxType::ELST.code()) == 0),
    {
        lemma_slot_unfold::<ElstBox>(done, BoxType::ELST.code(), self.elst);
        lemma_payloads_count(done, BoxType::ELST.code());
    }

    /// Nothing gathered from no boxes.
    fn new() -> (r: EdtsParts)
        ensures
            r.inv(Seq::empty()),
    {
        proof {
            lemma_slot_empty::<ElstBox>(BoxType::ELST.code());
        }
        EdtsParts { elst: None }
    }

    /// A box of another type changes nothing.
    proof fn lemma_skip(&self, done: Seq<Seq<u8>>, bb: Seq<u8>)
        requires
            self.inv(done),
            box_code(bb) != BoxType::ELST.code(),
        ensures
            self.inv(done.push(bb)),
    {
            lemma_slot_other::<ElstBox>(done, bb, BoxType::ELST.code(), self.elst);
    }

    /// Gathers the `elst` box `bb`, the first of its kind.
    fn put_elst(&mut self, x: ElstBox, Ghost(done): Ghost<Seq<Seq<u8>>>, Ghost(bb): Ghost<Seq<u8>>)
        requires
            old(self).inv(done),
            old(self).elst is None,
            box_code(bb) == BoxType::ELST.code(),
            ElstBox::spec_accepts(box_payload(bb)),
            ElstBox::spec_decodes(box_payload(bb), x),
        ensures
            final(self).inv(done.push(bb)),
    {
        proof {
            lemma_slot_unfold::<ElstBox>(done, BoxType::ELST.code(), old(self).elst);
            lemma_payloads_count(done, BoxType::ELST.code());
            lemma_slot_fill::<ElstBox>(done, bb, BoxType::ELST.code(), x);
            
        }
        self.elst = Some(x);
    }

    /// A second `elst` box after `done` makes the children no `edts` box.
    proof fn lemma_dup_elst(&self, done: Seq<Seq<u8>>, bb: Seq<u8>, after: Seq<Seq<u8>>)
        requires
            self.inv(done),
            self.elst is Some,
            box_code(bb) == BoxType::ELST.code(),
        ensures
            !edts_children_ok(done.push(bb) + after),
    {
        lemma_slot_unfold::<ElstBox>(done, BoxType::ELST.code(), self.elst);
        lemma_payloads_count(done, BoxType::ELST.code());
        lemma_children_push(done, bb, BoxType::ELST.code());
        lemma_count_grows(done.push(bb), after, BoxType::ELST.code());
    }

    /// The owned box from the children gathered from all child boxes `done`;
    /// an error when a required child is missing.
    fn finish(self, Ghost(done): Ghost<Seq<Seq<u8>>>) -> (r: Result<EdtsBox, Error>)
        requires
            self.inv(done),
        ensures
            (r is Ok) == edts_children_ok(done),
            r matches Ok(v) ==> edts_children_decode(done, v),
    {
        proof {
            lemma_slot_unfold::<ElstBox>(done, BoxType::ELST.code(), self.elst);
            lemma_payloads_count(done, BoxType::ELST.code());
        }

        let EdtsParts { elst, .. } = self;
        Ok(EdtsBox { elst })
    }
}

/// A payload of type `c` that does not decode makes the children no `edts` box.
proof fn reject_proof<'de, T: BoxDecode<'de>>(done: Seq<Seq<u8>>, bb: Seq<u8>, after: Seq<Seq<u8>>, c: u32)
    requires
        box_code(bb) == c,
        !T::spec_accepts(box_payload(bb)),
    ensures
        !all_accepted::<T>(payloads_of(done.push(bb) + after, c)),
{
    lemma_children_push(done, bb, c);
    let ps = payloads_of(done.push(bb), c);
    assert(ps[ps.len() - 1] == box_payload(bb));
    lemma_rejected_stays::<T>(done.push(bb), after, c);
}

impl EdtsBox {
    /// The owned box of a view: its children decoded; an error for a malformed
    /// child box, a child that does not decode, a second copy of a child that
    /// occurs once, or a missing required child.
    pub fn try_from(view: &EdtsBoxView<'_>) -> (r: Result<EdtsBox, Error>)
        ensures
            (r is Ok) == edts_accepts(view.content@),
            r matches Ok(v) ==> edts_children_decode(spec_children(view.content@), v),
            spec_children_ok(view.content@) && edts_known_accepted(spec_children(view.content@)) ==> (match first_dup(
                spec_children(view.content@),
                edts_once(),
            ) {
                Some(d) => is_duplicate_error(r, d, Some(BoxType::EDTS)),
                None => true,
            }),
    {
        let mut parts = EdtsParts::new();
        let mut it = view.boxes();
        let ghost mut done: Seq<Seq<u8>> = Seq::empty();
        loop
            invariant_except_break
                it.data@ == view.content@,
                it.pos <= it.data@.len(),
                spec_children(view.content@) == done + spec_children(it.rest()),
                spec_children_ok(view.content@) == spec_children_ok(it.rest()),
                parts.inv(done),
                first_dup(done, edts_once()) is None,
            ensures
                spec_children_ok(view.content@),
                spec_children(view.content@) == done,
                parts.inv(done),
                first_dup(done, edts_once()) is None,
            decreases it.data@.len() - it.pos,
        {
            let ghost rest = it.rest();
            match it.next() {
                None => {
                    assert(done + Seq::<Seq<u8>>::empty() =~= done);
                    break;
                },
                Some(Err(e)) => {
                    return Err(e);
                },
                Some(Ok(b)) => {
                    let ghost bb = b.data@;
                    let t = b.boxtype();
                    let code = t.type_field().0;
                    proof {
                        lemma_children_step(rest);
                        lemma_box_len_bounds(rest);
                        assert(done.push(bb) + spec_children(it.rest()) =~= done + (seq![rest.take(spec_box_len(rest)->0)] + spec_children(rest.skip(spec_box_len(rest)->0))));
                        assert(box_payload(bb) =~= b.spec_payload());
                        assert(box_code(bb) == code);
                        parts.lemma_counts(done);
                        lemma_edts_once(code);
                        lemma_first_dup_push(done, bb, edts_once());
                        assert(spec_children(view.content@) == done.push(bb) + spec_children(it.rest()));
                        if first_dup(done.push(bb), edts_once()) is Some {
                            lemma_first_dup_prefix(done.push(bb), spec_children(it.rest()), edts_once());
                        }
                    }
                    if code == BoxType::ELST.type_field().0 {
                        if parts.elst.is_some() {
                            proof {
                                parts.lemma_dup_elst(done, bb, spec_children(it.rest()));
                            }
                            return Err(Error::in_box(ErrorKind::BoxDuplicate { duplicate: BoxType::ELST }, BoxType::EDTS));
                        }
                        let x = match ElstBox::decode(b.payload()) {
                            Ok(x) => x,
                            Err(e) => {
                                proof {
                                    reject_proof::<ElstBox>(done, bb, spec_children(it.rest()), BoxType::ELST.code());
                                }
                                return Err(e);
                            },
                        };
                        parts.put_elst(x, Ghost(done), Ghost(bb));
                    } else {
                        proof {
                            parts.lemma_skip(done, bb);
                        }
                    }
                    proof {
                        done = done.push(bb);
                    }
                },
            }
        }
        parts.finish(Ghost(done))
    }
}

impl BoxCodec for EdtsBox {
    open spec fn spec_boxtype(&self) -> BoxType {
        BoxType::EDTS
    }

    fn boxtype(&self) -> (r: BoxType) {
        BoxType::EDTS
    }
}

impl<'de> BoxDecode<'de> for EdtsBox {
    open spec fn spec_accepts(bytes: Seq<u8>) -> bool {
        edts_accepts(bytes)
    }

    open spec fn spec_decodes(bytes: Seq<u8>, v: Self) -> bool {
        edts_children_decode(spec_children(bytes), v)
    }

    fn decode(bytes: &'de [u8]) -> (r: Result<Self, Error>) {
        let view = EdtsBoxView { content: bytes };
        EdtsBox::try_from(&view)
    }
}

impl BoxEncode for EdtsBox {
    open spec fn spec_encode(&self) -> Seq<u8> {
        spec_opt_boxed(self.elst)
    }

    open spec fn spec_encodable(&self) -> bool {
        &&& spec_opt_encodable(self.elst)
        &&& self.spec_encode().len() <= usize::MAX
    }

    fn encoded_len(&self) -> (r: usize) {
        let mut len: usize = 0;
        let ghost ok = self.spec_encodable();
        let ghost l0 = spec_opt_boxed(self.elst).len();
        assert(self.spec_encode().len() == l0);
        let n = opt_boxed_len(&self.elst);
        proof {
            assert(ok ==> n == l0);
        }
        if n > usize::MAX - len {
            return usize::MAX;
        }
        len = len + n;
        assert(ok ==> len == l0);
        len
    }

    fn encode_into(&self, bytes: &mut [u8]) -> (r: Result<usize, Error>) {
        let ghost s0 = bytes@;
        let p: usize = 0;
        proof {
            crate::cursor::lemma_splice_empty(s0, 0);
        }
        let ghost a = Seq::<u8>::empty();
        let w = write_opt_box_at(bytes, p, &self.elst);
        let p = match w {
            Ok(q) => q,
            Err(e) => {
                return Err(e);
            },
        };
        proof {
            lemma_splice_concat(s0, 0, a, spec_opt_boxed(self.elst));
            assert(a + spec_opt_boxed(self.elst) =~= Seq::<u8>::empty() + spec_opt_boxed(self.elst));
        }
        Ok(p)
    }
}

} // verus!
