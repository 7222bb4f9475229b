//! Track Group Box (`trgr`): the groups a track belongs to, one child box per
//! group whose type is the grouping type.
use vstd::prelude::*;

use crate::bytes::{be32, u32_bytes, lemma_be32_at};
use crate::children::box_payload;
use crate::codec::{BoxCodec, BoxDecode, BoxEncode, short_buffer};
use crate::cursor::{put_u32, lemma_splice_concat, splice};
use crate::error::{Error, ErrorKind};
use crate::rawbox::{BoxIter, spec_box_len, spec_header_len, lemma_box_len_bounds};
use crate::types::BoxType;

verus! {

/// A track group: the identifier shared by the tracks of the group.
#[derive(Debug, Clone, Copy, PartialEq, Eq)]
pub struct TrgrTypeBox {
    /// The group identifier.
    pub track_group_id: u32,
}

/// The track groups in the boxes of `s`: the type code and the first four
/// payload bytes of each, or `None` when a box is malformed or its payload is
/// shorter than four bytes.
pub open spec fn trgr_groups(s: Seq<u8>) -> Option<Seq<(u32, u32)>>
    decreases s.len(),
{
    if s.len() == 0 {
        Some(Seq::empty())
    } else {
        match spec_box_len(s) {
            None => None,
            Some(n) => {
                let p = s.subrange(spec_header_len(s), n);
                if n < 8 || p.len() < 4 {
                    None
                } else {
                    match trgr_groups(s.skip(n)) {
                        None => None,
                        Some(r) => Some(seq![(be32(s, 4), be32(p, 0))] + r),
                    }
                }
            },
        }
    }
}

/// The first track group of type code `code` in the boxes of `s`: `Ok(None)`
/// without one, an error when a box before it is malformed or too short.
pub open spec fn trgr_find(s: Seq<u8>, code: u32) -> Result<Option<u32>, ()>
    decreases s.len(),
{
    if s.len() == 0 {
        Ok(None)
    } else {
        match spec_box_len(s) {
            None => Err(()),
            Some(n) => {
                let p = s.subrange(spec_header_len(s), n);
                if n < 8 || p.len() < 4 {
                    Err(())
                } else if be32(s, 4) == code {
                    Ok(Some(be32(p, 0)))
                } else {
                    trgr_find(s.skip(n), code)
                }
            },
        }
    }
}

/// Whether `v` holds the groups `gs` (type code and identifier), in order.
pub open spec fn trgr_match(v: Seq<(BoxType, TrgrTypeBox)>, gs: Seq<(u32, u32)>) -> bool {
    &&& v.len() == gs.len()
    &&& forall|i: int| 0 <= i < gs.len() ==> (#[trigger] v[i]).0.code() == gs[i].0 && v[i].0.wf() && v[i].1.track_group_id == gs[i].1
}

/// Track Group Box (`trgr`) over the bytes of its child boxes.
#[derive(Debug)]
pub struct TrgrBoxView<'a> {
    /// The child boxes.
    pub content: &'a [u8],
}

impl<'a> TrgrBoxView<'a> {
    /// An iterator over the child boxes.
    pub fn boxes(&self) -> (r: BoxIter<'a>)
        ensures
            r.data@ == self.content@,
            r.pos == 0,
            r.rest() == self.content@,
    {
        BoxIter::new(self.content)
    }

    /// The track groups: for each child box, its type and the identifier in
    /// its first four payload bytes; an error when a box is malformed or its
    /// payload is shorter than four bytes.
    pub fn track_groups(&self) -> (r: Result<Vec<(BoxType, TrgrTypeBox)>, Error>)
        ensures
            (r is Ok) == (trgr_groups(self.content@) is Some),
            r matches Ok(v) ==> trgr_match(v@, trgr_groups(self.content@)->0),
    {
        let mut out: Vec<(BoxType, TrgrTypeBox)> = Vec::new();
        let mut it = self.boxes();
        loop
            invariant_except_break
                it.data@ == self.content@,
                it.pos <= it.data@.len(),
                trgr_groups(self.content@) == (match trgr_groups(it.rest()) {
                    Some(r) => Some(out@.map_values(|g: (BoxType, TrgrTypeBox)| (g.0.code(), g.1.track_group_id)) + r),
                    None => None,
                }),
                forall|i: int| 0 <= i < out@.len() ==> (#[trigger] out@[i]).0.wf(),
            ensures
                trgr_groups(self.content@) == Some(out@.map_values(|g: (BoxType, TrgrTypeBox)| (g.0.code(), g.1.track_group_id))),
                forall|i: int| 0 <= i < out@.len() ==> (#[trigger] out@[i]).0.wf(),
            decreases it.data@.len() - it.pos,
        {
            let ghost rest = it.rest();
            let ghost before = out@;
            match it.next() {
                None => {
                    assert(out@.map_values(|g: (BoxType, TrgrTypeBox)| (g.0.code(), g.1.track_group_id)) + Seq::<(u32, u32)>::empty()
                        =~= out@.map_values(|g: (BoxType, TrgrTypeBox)| (g.0.code(), g.1.track_group_id)));
                    break;
                },
                Some(Err(e)) => {
                    return Err(e);
                },
                Some(Ok(b)) => {
                    proof {
                        lemma_box_len_bounds(rest);
                    }
                    let t = b.boxtype();
                    let p = b.payload();
                    assert(p@ =~= rest.subrange(spec_header_len(rest), spec_box_len(rest)->0));
                    if p.len() < 4 {
                        return Err(Error::in_box(ErrorKind::NotEnoughBytes { expected: 4, remaining: p.len() }, BoxType::TRGR));
                    }
                    let id: u32 = (p[0] as u32) * 0x1000000 + (p[1] as u32) * 0x10000 + (p[2] as u32) * 0x100 + (p[3] as u32);
                    assert(id == be32(p@, 0));
                    out.push((t, TrgrTypeBox { track_group_id: id }));
                    proof {
                        let f = |g: (BoxType, TrgrTypeBox)| (g.0.code(), g.1.track_group_id);
                        assert(out@.map_values(f) =~= before.map_values(f).push((be32(rest, 4), id)));
                        match trgr_groups(it.rest()) {
                            Some(r) => {
                                assert(before.map_values(f) + (seq![(be32(rest, 4), id)] + r) =~= out@.map_values(f) + r);
                            },
                            None => {},
                        }
                        assert forall|i: int| 0 <= i < out@.len() implies (#[trigger] out@[i]).0.wf() by {
                            if i < before.len() {
                                assert(out@[i] == before[i]);
                            }
                        }
                    }
                },
            }
        }
        proof {
            let gs = trgr_groups(self.content@)->0;
            let f = |g: (BoxType, TrgrTypeBox)| (g.0.code(), g.1.track_group_id);
            assert forall|i: int| 0 <= i < gs.len() implies (#[trigger] out@[i]).0.code() == gs[i].0 && out@[i].0.wf() && out@[i].1.track_group_id == gs[i].1 by {
                assert(gs[i] == out@.map_values(f)[i]);
            }
        }
        Ok(out)
    }

    /// The first track group of type `track_group_type`; an error when a
    /// child box before it is malformed or too short.
    pub fn find_track_group(&self, track_group_type: BoxType) -> (r: Result<Option<TrgrTypeBox>, Error>)
        requires
            track_group_type.wf(),
        ensures
            match trgr_find(self.content@, track_group_type.code()) {
                Ok(Some(id)) => r == Ok::<Option<TrgrTypeBox>, Error>(Some(TrgrTypeBox { track_group_id: id })),
                Ok(None) => r == Ok::<Option<TrgrTypeBox>, Error>(None),
                Err(_) => r is Err,
            },
    {
        let mut it = self.boxes();
        loop
            invariant
                it.data@ == self.content@,
                it.pos <= it.data@.len(),
                track_group_type.wf(),
                trgr_find(it.rest(), track_group_type.code()) == trgr_find(self.content@, track_group_type.code()),
            decreases it.data@.len() - it.pos,
        {
            let ghost rest = it.rest();
            match it.next() {
                None => {
                    return Ok(None);
                },
                Some(Err(e)) => {
                    return Err(e);
                },
                Some(Ok(b)) => {
                    proof {
                        lemma_box_len_bounds(rest);
                        crate::types::lemma_box_type_code_injective(b.header.boxtype, track_group_type);
                    }
                    let p = b.payload();
                    assert(p@ =~= rest.subrange(spec_header_len(rest), spec_box_len(rest)->0));
                    if p.len() < 4 {
                        return Err(Error::in_box(ErrorKind::NotEnoughBytes { expected: 4, remaining: p.len() }, BoxType::TRGR));
                    }
                    if b.boxtype() == track_group_type {
                        let id: u32 = (p[0] as u32) * 0x1000000 + (p[1] as u32) * 0x10000 + (p[2] as u32) * 0x100 + (p[3] as u32);
                        return Ok(Some(TrgrTypeBox { track_group_id: id }));
                    }
                },
            }
        }
    }
}

impl BoxCodec for TrgrBoxView<'_> {
    open spec fn spec_boxtype(&self) -> BoxType {
        BoxType::TRGR
    }

    fn boxtype(&self) -> (r: BoxType) {
        BoxType::TRGR
    }
}

impl<'de> BoxDecode<'de> for TrgrBoxView<'de> {
    open spec fn spec_accepts(bytes: Seq<u8>) -> bool {
        true
    }

    open spec fn spec_decodes(bytes: Seq<u8>, v: Self) -> bool {
        v.content@ == bytes
    }

    fn decode(bytes: &'de [u8]) -> (r: Result<Self, Error>) {
        Ok(TrgrBoxView { content: bytes })
    }
}

/// Track Group Box (`trgr`) with its groups in a vector.
#[derive(Debug, Clone)]
pub struct TrgrBox {
    /// The groups: grouping type and group identifier.
    pub track_groups: Vec<(BoxType, TrgrTypeBox)>,
}

impl TrgrBox {
    /// The owned box of a view; an error when a child box is malformed or too short.
    pub fn try_from(view: &TrgrBoxView<'_>) -> (r: Result<TrgrBox, Error>)
        ensures
            (r is Ok) == (trgr_groups(view.content@) is Some),
            r matches Ok(b) ==> trgr_match(b.track_groups@, trgr_groups(view.content@)->0),
    {
        let track_groups = view.track_groups()?;
        Ok(TrgrBox { track_groups })
    }
}

impl BoxCodec for TrgrBox {
    open spec fn spec_boxtype(&self) -> BoxType {
        BoxType::TRGR
    }

    fn boxtype(&self) -> (r: BoxType) {
        BoxType::TRGR
    }
}

impl<'de> BoxDecode<'de> for TrgrBox {
    open spec fn spec_accepts(bytes: Seq<u8>) -> bool {
        trgr_groups(bytes) is Some
    }

    open spec fn spec_decodes(bytes: Seq<u8>, v: Self) -> bool {
        trgr_match(v.track_groups@, trgr_groups(bytes)->0)
    }

    fn decode(bytes: &'de [u8]) -> (r: Result<Self, Error>) {
        let view = TrgrBoxView { content: bytes };
        TrgrBox::try_from(&view)
    }
}

/// The bytes of one track group box: a 12-byte header and identifier.
pub open spec fn trgr_group_bytes(g: (BoxType, TrgrTypeBox)) -> Seq<u8> {
    u32_bytes(12) + u32_bytes(g.0.code()) + u32_bytes(g.1.track_group_id)
}

/// The bytes of track group boxes, one after another.
pub open spec fn trgr_groups_bytes(gs: Seq<(BoxType, TrgrTypeBox)>) -> Seq<u8>
    decreases gs.len(),
{
    if gs.len() == 0 {
        Seq::empty()
    } else {
        trgr_groups_bytes(gs.drop_last()) + trgr_group_bytes(gs.last())
    }
}

/// Track group boxes take twelve bytes each.
proof fn lemma_trgr_bytes_len(gs: Seq<(BoxType, TrgrTypeBox)>)
    ensures
        trgr_groups_bytes(gs).len() == gs.len() * 12,
    decreases gs.len(),
{
    if gs.len() > 0 {
        lemma_trgr_bytes_len(gs.drop_last());
    }
}

impl BoxEncode for TrgrBox {
    open spec fn spec_encode(&self) -> Seq<u8> {
        trgr_groups_bytes(self.track_groups@)
    }

    open spec fn spec_encodable(&self) -> bool {
        self.track_groups@.len() * 12 <= usize::MAX
    }

    fn encoded_len(&self) -> (r: usize) {
        proof {
            lemma_trgr_bytes_len(self.track_groups@);
        }
        if self.track_groups.len() > usize::MAX / 12 {
            usize::MAX
        } else {
            self.track_groups.len() * 12
        }
    }

    fn encode_into(&self, bytes: &mut [u8]) -> (r: Result<usize, Error>) {
        let ghost s0 = bytes@;
        let gs = &self.track_groups;
        proof {
            lemma_trgr_bytes_len(gs@);
        }
        if gs.len() > usize::MAX / 12 || bytes.len() < gs.len() * 12 {
            return Err(short_buffer(if gs.len() > usize::MAX / 12 { usize::MAX } else { gs.len() * 12 }, bytes.len()));
        }
        let mut p: usize = 0;
        let mut i: usize = 0;
        proof {
            assert(gs@.take(0) =~= Seq::<(BoxType, TrgrTypeBox)>::empty());
            crate::cursor::lemma_splice_empty(s0, 0);
        }
        while i < gs.len()
            invariant
                i <= gs@.len(),
                gs@.len() * 12 <= bytes@.len(),
                bytes@.len() == s0.len(),
                p == i * 12,
                bytes@ == splice(s0, 0, trgr_groups_bytes(gs@.take(i as int))),
            decreases gs@.len() - i,
        {
            let (t, g) = gs[i];
            let ghost before = trgr_groups_bytes(gs@.take(i as int));
            proof {
                lemma_trgr_bytes_len(gs@.take(i as int));
                assert(gs@.take(i + 1).drop_last() =~= gs@.take(i as int));
            }
            let q = put_u32(bytes, p, 12)?;
            proof {
                lemma_splice_concat(s0, 0, before, u32_bytes(12));
            }
            let q = put_u32(bytes, q, t.type_field().0)?;
            proof {
                lemma_splice_concat(s0, 0, before + u32_bytes(12), u32_bytes(t.code()));
            }
            let q = put_u32(bytes, q, g.track_group_id)?;
            proof {
                lemma_splice_concat(s0, 0, before + u32_bytes(12) + u32_bytes(t.code()), u32_bytes(g.track_group_id));
                assert(before + u32_bytes(12) + u32_bytes(t.code()) + u32_bytes(g.track_group_id) =~= trgr_groups_bytes(gs@.take(i + 1)));
            }
            p = q;
            i = i + 1;
        }
        assert(gs@.take(i as int) =~= gs@);
        Ok(p)
    }
}

} // verus!
