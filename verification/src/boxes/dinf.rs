//! Data Information Box (`dinf`): the container of the data reference box.
use vstd::prelude::*;

use crate::children::{first_dup, is_duplicate_error, lemma_first_dup_push, lemma_first_dup_prefix, decode_child, decode_required, decode_all, optional_child, required_child, all_accepted, all_decoded, payloads_of, count_code, box_code, box_payload, slot, list_slot, opt_decoded, lemma_slot_other, lemma_slot_fill, lemma_list_other, lemma_list_push, lemma_children_push, lemma_children_step, lemma_count_grows, lemma_rejected_stays, lemma_payloads_count, lemma_slot_unfold, lemma_list_unfold, lemma_slot_empty};
use crate::codec::{BoxCodec, BoxDecode, BoxEncode, spec_boxed, spec_opt_boxed, spec_boxed_list, spec_opt_encodable, spec_list_encodable, boxed_len, opt_boxed_len, list_boxed_len, write_box_at, write_opt_box_at, write_box_list_at, lemma_boxed_len};
use crate::cursor::{splice, lemma_splice_concat};
use crate::error::{Error, ErrorKind};
use crate::rawbox::{BoxIter, spec_children, spec_children_ok, spec_box_len, lemma_box_len_bounds};
use crate::types::BoxType;
use crate::boxes::dref::{DrefBox, DrefBoxView};

verus! {

/// Data Information Box (`dinf`) over the bytes of its child boxes.
#[derive(Debug)]
pub struct DinfBoxView<'a> {
    /// The child boxes.
    pub content: &'a [u8],
}

impl<'a> DinfBoxView<'a> {
    /// An iterator over the child boxes.
    pub fn boxes(&self) -> (r: BoxIter<'a>)
        ensures
            r.data@ == self.content@,
            r.pos == 0,
            r.rest() == self.content@,
    {
        BoxIter::new(self.content)
    }

    /// The Data Reference Box (`dref`), which is required.
    pub fn dref(&self) -> (r: Result<DrefBoxView<'a>, Error>)
        ensures
            required_child(self.content@, BoxType::DREF, r),
    {
        decode_required(self.content, BoxType::DREF, BoxType::DINF)
    }
}

impl BoxCodec for DinfBoxView<'_> {
    open spec fn spec_boxtype(&self) -> BoxType {
        BoxType::DINF
    }

    fn boxtype(&self) -> (r: BoxType) {
        BoxType::DINF
    }
}

impl<'de> BoxDecode<'de> for DinfBoxView<'de> {
    open spec fn spec_accepts(bytes: Seq<u8>) -> bool {
        true
    }

    open spec fn spec_decodes(bytes: Seq<u8>, v: Self) -> bool {
        v.content@ == bytes
    }

    fn decode(bytes: &'de [u8]) -> (r: Result<Self, Error>) {
        Ok(DinfBoxView { content: bytes })
    }
}

/// Data Information Box (`dinf`) with its data reference box decoded.
#[derive(Debug, Clone)]
pub struct DinfBox {
    /// The Data Reference Box (`dref`).
    pub dref: DrefBox,
}

/// Whether the child boxes `bs` make an owned `dinf` box: the counts
/// its child types allow, and every child of a known type decoding.
pub open spec fn dinf_children_ok(bs: Seq<Seq<u8>>) -> bool {
    &&& count_code(bs, BoxType::DREF.code()) == 1
        &&& all_accepted::<DrefBox>(payloads_of(bs, BoxType::DREF.code()))
}

/// The payloads an owned `dinf` box accepts: well-formed child boxes
/// that make such a box.
pub open spec fn dinf_accepts(s: Seq<u8>) -> bool {
    spec_children_ok(s) && dinf_children_ok(spec_children(s))
}

/// Whether `v` is the owned `dinf` box of the child boxes `bs`: each
/// field what its child boxes decode to.
pub open spec fn dinf_children_decode(bs: Seq<Seq<u8>>, v: DinfBox) -> bool {
    &&& DrefBox::spec_decodes(payloads_of(bs, BoxType::DREF.code())[0], v.dref)
}

/// The code of the child of a `dinf` box that occurs once.
pub open spec fn dinf_once() -> Seq<u32> {
    seq![BoxType::DREF.code()]
}

/// Which codes are in [`dinf_once`].
proof fn lemma_dinf_once(c: u32)
    ensures
        dinf_once().contains(c) == (c == BoxType::DREF.code()),
{
    if c == BoxType::DREF.code() {
        assert(dinf_once()[0] == c);
    }
}

/// Whether every child of a known type among `bs` decodes.
pub open spec fn dinf_known_accepted(bs: Seq<Seq<u8>>) -> bool {
    &&& all_accepted::<DrefBox>(payloads_of(bs, BoxType::DREF.code()))
}

/// The children of a `dinf` box gathered so far.
struct DinfParts {
    dref: Option<DrefBox>,

}

impl DinfParts {
    /// The children gathered from the child boxes `done`.
    closed spec fn inv(&self, done: Seq<Seq<u8>>) -> bool {
        &&& slot::<DrefBox>(done, BoxType::DREF.code(), self.dref)
    }

    /// Whether a `dref` box came among the gathered children.
    proof fn lemma_counts(&self, done: Seq<Seq<u8>>)
        requires
            self.inv(done),
        ensures
            (self.dref is None) == (count_code(done, BoxType::DREF.code()) == 0),
    {
        lemma_slot_unfold::<DrefBox>(done, BoxType::DREF.code(), self.dref);
        lemma_payloads_count(done, BoxType::DREF.code());
    }

    /// Nothing gathered from no boxes.
    fn new() -> (r: DinfParts)
        ensures
            r.inv(Seq::empty()),
    {
        proof {
            lemma_slot_empty::<DrefBox>(BoxType::DREF.code());
        }
        DinfParts { dref: None }
    }

    /// A box of another type changes nothing.
    proof fn lemma_skip(&self, done: Seq<Seq<u8>>, bb: Seq<u8>)
        requires
            self.inv(done),
            box_code(bb) != BoxType::DREF.code(),
        ensures
            self.inv(done.push(bb)),
    {
            lemma_slot_other::<DrefBox>(done, bb, BoxType::DREF.code(), self.dref);
    }

    /// Gathers the `dref` box `bb`, the first of its kind.
    fn put_dref(&mut self, x: DrefBox, Ghost(done): Ghost<Seq<Seq<u8>>>, Ghost(bb): Ghost<Seq<u8>>)
        requires
            old(self).inv(done),
            old(self).dref is None,
            box_code(bb) == BoxType::DREF.code(),
            DrefBox::spec_accepts(box_payload(bb)),
            DrefBox::spec_decodes(box_payload(bb), x),
        ensures
            final(self).inv(done.push(bb)),
    {
        proof {
            lemma_slot_unfold::<DrefBox>(done, BoxType::DREF.code(), old(self).dref);
            lemma_payloads_count(done, BoxType::DREF.code());
            lemma_slot_fill::<DrefBox>(done, bb, BoxType::DREF.code(), x);
            
        }
        self.dref = Some(x);
    }

    /// A second `dref` box after `done` makes the children no `dinf` box.
    proof fn lemma_dup_dref(&self, done: Seq<Seq<u8>>, bb: Seq<u8>, after: Seq<Seq<u8>>)
        requires
            self.inv(done),
            self.dref is Some,
            box_code(bb) == BoxType::DREF.code(),
        ensures
            !dinf_children_ok(done.push(bb) + after),
    {
        lemma_slot_unfold::<DrefBox>(done, BoxType::DREF.code(), self.dref);
        lemma_payloads_count(done, BoxType::DREF.code());
        lemma_children_push(done, bb, BoxType::DREF.code());
        lemma_count_grows(done.push(bb), after, BoxType::DREF.code());
    }

    /// The owned box from the children gathered from all child boxes `done`;
    /// an error when a required child is missing.
    fn finish(self, Ghost(done): Ghost<Seq<Seq<u8>>>) -> (r: Result<DinfBox, Error>)
        requires
            self.inv(done),
        ensures
            (r is Ok) == dinf_children_ok(done),
            r matches Ok(v) ==> dinf_children_decode(done, v),
            count_code(done, BoxType::DREF.code()) == 0 ==> r == Err::<DinfBox, Error>(Error {
                kind: ErrorKind::BoxMissing { required: BoxType::DREF },
                offset: None,
                box_type: Some(BoxType::DINF),
            }),
    {
        proof {
            lemma_slot_unfold::<DrefBox>(done, BoxType::DREF.code(), self.dref);
            lemma_payloads_count(done, BoxType::DREF.code());
        }
        let dref = match self.dref {
            Some(x) => x,
            None => {
                return Err(Error::in_box(ErrorKind::BoxMissing { required: BoxType::DREF }, BoxType::DINF));
            },
        };

        Ok(DinfBox { dref })
    }
}

/// A payload of type `c` that does not decode makes the children no `dinf` box.
proof fn reject_proof<'de, T: BoxDecode<'de>>(done: Seq<Seq<u8>>, bb: Seq<u8>, after: Seq<Seq<u8>>, c: u32)
    requires
        box_code(bb) == c,
        !T::spec_accepts(box_payload(bb)),
    ensures
        !all_accepted::<T>(payloads_of(done.push(bb) + after, c)),
{
    lemma_children_push(done, bb, c);
    let ps = payloads_of(done.push(bb), c);
    assert(ps[ps.len() - 1] == box_payload(bb));
    lemma_rejected_stays::<T>(done.push(bb), after, c);
}

impl DinfBox {
    /// The owned box of a view: its children decoded; an error for a malformed
    /// child box, a child that does not decode, a second copy of a child that
    /// occurs once, or a missing required child.
    pub fn try_from(view: &DinfBoxView<'_>) -> (r: Result<DinfBox, Error>)
        ensures
            (r is Ok) == dinf_accepts(view.content@),
            r matches Ok(v) ==> dinf_children_decode(spec_children(view.content@), v),
            spec_children_ok(view.content@) && dinf_known_accepted(spec_children(view.content@)) ==> (match first_dup(
                spec_children(view.content@),
                dinf_once(),
            ) {
                Some(d) => is_duplicate_error(r, d, Some(BoxType::DINF)),
                None => count_code(spec_children(view.content@), BoxType::DREF.code()) == 0 ==> r == Err::<DinfBox, Error>(Error {
                    kind: ErrorKind::BoxMissing { required: BoxType::DREF },
                    offset: None,
                    box_type: Some(BoxType::DINF),
                }),
            }),
    {
        let mut parts = DinfParts::new();
        let mut it = view.boxes();
        let ghost mut done: Seq<Seq<u8>> = Seq::empty();
        loop
            invariant_except_break
                it.data@ == view.content@,
                it.pos <= it.data@.len(),
                spec_children(view.content@) == done + spec_children(it.rest()),
                spec_children_ok(view.content@) == spec_children_ok(it.rest()),
                parts.inv(done),
                first_dup(done, dinf_once()) is None,
            ensures
                spec_children_ok(view.content@),
                spec_children(view.content@) == done,
                parts.inv(done),
                first_dup(done, dinf_once()) is None,
            decreases it.data@.len() - it.pos,
        {
            let ghost rest = it.rest();
            match it.next() {
                None => {
                    assert(done + Seq::<Seq<u8>>::empty() =~= done);
                    break;
                },
                Some(Err(e)) => {
                    return Err(e);
                },
                Some(Ok(b)) => {
                    let ghost bb = b.data@;
                    let t = b.boxtype();
                    let code = t.type_field().0;
                    proof {
                        lemma_children_step(rest);
                        lemma_box_len_bounds(rest);
                        assert(done.push(bb) + spec_children(it.rest()) =~= done + (seq![rest.take(spec_box_len(rest)->0)] + spec_children(rest.skip(spec_box_len(rest)->0))));
                        assert(box_payload(bb) =~= b.spec_payload());
                        assert(box_code(bb) == code);
                        parts.lemma_counts(done);
                        lemma_dinf_once(code);
                        lemma_first_dup_push(done, bb, dinf_once());
                        assert(spec_children(view.content@) == done.push(bb) + spec_children(it.rest()));
                        if first_dup(done.push(bb), dinf_once()) is Some {
                            lemma_first_dup_prefix(done.push(bb), spec_children(it.rest()), dinf_once());
                        }
                    }
                    if code == BoxType::DREF.type_field().0 {
                        if parts.dref.is_some() {
                            proof {
                                parts.lemma_dup_dref(done, bb, spec_children(it.rest()));
                            }
                            return Err(Error::in_box(ErrorKind::BoxDuplicate { duplicate: BoxType::DREF }, BoxType::DINF));
                        }
                        let x = match DrefBox::decode(b.payload()) {
                            Ok(x) => x,
                            Err(e) => {
                                proof {
                                    reject_proof::<DrefBox>(done, bb, spec_children(it.rest()), BoxType::DREF.code());
                                }
                                return Err(e);
                            },
                        };
                        parts.put_dref(x, Ghost(done), Ghost(bb));
                    } else {
                        proof {
                            parts.lemma_skip(done, bb);
                        }
                    }
                    proof {
                        done = done.push(bb);
                    }
                },
            }
        }
        parts.finish(Ghost(done))
    }
}

impl BoxCodec for DinfBox {
    open spec fn spec_boxtype(&self) -> BoxType {
        BoxType::DINF
    }

    fn boxtype(&self) -> (r: BoxType) {
        BoxType::DINF
    }
}

impl<'de> BoxDecode<'de> for DinfBox {
    open spec fn spec_accepts(bytes: Seq<u8>) -> bool {
        dinf_accepts(bytes)
    }

    open spec fn spec_decodes(bytes: Seq<u8>, v: Self) -> bool {
        dinf_children_decode(spec_children(bytes), v)
    }

    fn decode(bytes: &'de [u8]) -> (r: Result<Self, Error>) {
        let view = DinfBoxView { content: bytes };
        DinfBox::try_from(&view)
    }
}

impl BoxEncode for DinfBox {
    open spec fn spec_encode(&self) -> Seq<u8> {
        spec_boxed(&self.dref)
    }

    open spec fn spec_encodable(&self) -> bool {
        &&& self.dref.spec_encodable()
        &&& self.spec_encode().len() <= usize::MAX
    }

    fn encoded_len(&self) -> (r: usize) {
        let mut len: usize = 0;
        let ghost ok = self.spec_encodable();
        let ghost l0 = spec_boxed(&self.dref).len();
        assert(self.spec_encode().len() == l0);
        let n = boxed_len(&self.dref);
        proof {
            lemma_boxed_len(&self.dref);
            assert(ok ==> n == l0);
        }
        if n > usize::MAX - len {
            return usize::MAX;
        }
        len = len + n;
        assert(ok ==> len == l0);
        len
    }

    fn encode_into(&self, bytes: &mut [u8]) -> (r: Result<usize, Error>) {
        let ghost s0 = bytes@;
        let p: usize = 0;
        proof {
            crate::cursor::lemma_splice_empty(s0, 0);
        }
        let ghost a = Seq::<u8>::empty();
        let w = write_box_at(bytes, p, &self.dref);
        let p = match w {
            Ok(q) => q,
            Err(e) => {
                return Err(e);
            },
        };
        proof {
            lemma_splice_concat(s0, 0, a, spec_boxed(&self.dref));
            assert(a + spec_boxed(&self.dref) =~= Seq::<u8>::empty() + spec_boxed(&self.dref));
        }
        Ok(p)
    }
}

} // verus!
