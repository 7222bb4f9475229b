//! Sample Group Description Box (`sgpd`): the descriptions of the groups of one
//! grouping type, of fixed or of individual lengths.
use vstd::prelude::*;

use crate::bytes::{be24, be32, u24_bytes, u32_bytes, lemma_be24_at, lemma_be32_at, lemma_be32_in};
use crate::codec::{BoxCodec, BoxDecode, BoxEncode, short_buffer};
use crate::cursor::{put_slice, put_u8, put_u24, put_u32, lemma_splice_concat, ReadCursor, splice};
use crate::error::{Error, ErrorKind};
use crate::flags::{BoxFlags, SgpdFlags};
use crate::types::{BoxType, FourCC};

verus! {

/// The next description in `s` and what follows it: `default_length` bytes
/// when that is positive, else a 32-bit length and that many bytes; `None`
/// when `s` is too short.
pub open spec fn sgpd_entry(s: Seq<u8>, default_length: u32) -> Option<(Seq<u8>, Seq<u8>)> {
    if default_length > 0 {
        if s.len() < default_length {
            None
        } else {
            Some((s.take(default_length as int), s.skip(default_length as int)))
        }
    } else if s.len() < 4 {
        None
    } else {
        let l = be32(s, 0) as int;
        let t = s.skip(4);
        if t.len() < l {
            None
        } else {
            Some((t.take(l), t.skip(l)))
        }
    }
}

/// The first `count` descriptions of `s`, or `None` when one of them is cut off.
pub open spec fn sgpd_split(s: Seq<u8>, count: nat, default_length: u32) -> Option<Seq<Seq<u8>>>
    decreases count,
{
    if count == 0 {
        Some(Seq::empty())
    } else {
        match sgpd_entry(s, default_length) {
            None => None,
            Some((e, rest)) => match sgpd_split(rest, (count - 1) as nat, default_length) {
                None => None,
                Some(r) => Some(seq![e] + r),
            },
        }
    }
}

/// The bytes of one description: with its 32-bit length first when `prefixed`.
pub open spec fn sgpd_piece(e: Seq<u8>, prefixed: bool) -> Seq<u8> {
    if prefixed {
        u32_bytes(e.len() as u32) + e
    } else {
        e
    }
}

/// The bytes of a sequence of descriptions, one after another.
pub open spec fn sgpd_join(es: Seq<Seq<u8>>, prefixed: bool) -> Seq<u8>
    decreases es.len(),
{
    if es.len() == 0 {
        Seq::empty()
    } else {
        sgpd_piece(es[0], prefixed) + sgpd_join(es.skip(1), prefixed)
    }
}

/// Appending a description appends its bytes.
proof fn lemma_sgpd_join_push(es: Seq<Seq<u8>>, e: Seq<u8>, prefixed: bool)
    ensures
        sgpd_join(es.push(e), prefixed) == sgpd_join(es, prefixed) + sgpd_piece(e, prefixed),
    decreases es.len(),
{
    if es.len() == 0 {
        assert(es.push(e)[0] == e);
        assert(es.push(e).skip(1) =~= Seq::<Seq<u8>>::empty());
        assert(sgpd_join(Seq::<Seq<u8>>::empty(), prefixed) =~= Seq::<u8>::empty());
        assert(sgpd_join(es.push(e), prefixed) == sgpd_piece(e, prefixed) + sgpd_join(es.push(e).skip(1), prefixed));
        assert(sgpd_join(es, prefixed) =~= Seq::<u8>::empty());
        assert(sgpd_join(es.push(e), prefixed) =~= sgpd_join(es, prefixed) + sgpd_piece(e, prefixed));
    } else {
        assert(es.push(e).skip(1) =~= es.skip(1).push(e));
        lemma_sgpd_join_push(es.skip(1), e, prefixed);
        assert(sgpd_join(es.push(e), prefixed) =~= sgpd_join(es, prefixed) + sgpd_piece(e, prefixed));
    }
}

/// Splitting the bytes of descriptions gives them back, when each has the
/// default length or lengths are written.
#[verifier::rlimit(60)]
proof fn lemma_sgpd_split_join(es: Seq<Seq<u8>>, default_length: u32, rest: Seq<u8>)
    requires
        default_length > 0 ==> forall|i: int| 0 <= i < es.len() ==> #[trigger] es[i].len() == default_length,
        default_length == 0 ==> forall|i: int| 0 <= i < es.len() ==> #[trigger] es[i].len() <= u32::MAX,
    ensures
        sgpd_split(sgpd_join(es, default_length == 0) + rest, es.len(), default_length) == Some(es),
    decreases es.len(),
{
    let p = default_length == 0;
    let s = sgpd_join(es, p) + rest;
    if es.len() == 0 {
        assert(sgpd_split(s, 0, default_length) == Some(Seq::<Seq<u8>>::empty()));
        assert(es =~= Seq::<Seq<u8>>::empty());
    } else {
        let e = es[0];
        let tail = sgpd_join(es.skip(1), p) + rest;
        assert(s =~= sgpd_piece(e, p) + tail);
        assert forall|i: int| 0 <= i < es.skip(1).len() implies #[trigger] es.skip(1)[i].len() == es[i + 1].len() by {
        }
        lemma_sgpd_split_join(es.skip(1), default_length, rest);
        if default_length > 0 {
            assert(s.take(default_length as int) =~= e);
            assert(s.skip(default_length as int) =~= tail);
        } else {
            lemma_be32_at(Seq::empty(), e.len() as u32, e + tail);
            assert(s =~= Seq::<u8>::empty() + u32_bytes(e.len() as u32) + (e + tail));
            assert(s.skip(4) =~= e + tail);
            assert((e + tail).take(e.len() as int) =~= e);
            assert((e + tail).skip(e.len() as int) =~= tail);
        }
        assert(seq![e] + es.skip(1) =~= es);
    }
}

/// The bytes of each description held in vectors.
pub open spec fn sgpd_descriptions(es: Seq<Vec<u8>>) -> Seq<Seq<u8>> {
    es.map_values(|v: Vec<u8>| v@)
}

/// The error for descriptions cut off in `s`: the bytes a description (or,
/// with its own length, the four-byte length) needs, and those left.
pub open spec fn sgpd_short(s: Seq<u8>, default_length: u32) -> ErrorKind {
    if default_length > 0 {
        ErrorKind::NotEnoughBytes { expected: default_length as usize, remaining: s.len() as usize }
    } else if s.len() < 4 {
        ErrorKind::NotEnoughBytes { expected: 4, remaining: s.len() as usize }
    } else {
        ErrorKind::NotEnoughBytes { expected: be32(s, 0) as usize, remaining: (s.len() - 4) as usize }
    }
}

/// An iterator over the descriptions of an `sgpd` box of version 1 or later.
#[derive(Debug)]
pub struct SgpdEntryIter<'a> {
    /// The bytes not read yet.
    pub entries: &'a [u8],
    /// The number of descriptions left.
    pub entry_count: u32,
    /// The length of each description, or 0 when each has its own length.
    pub default_length: u32,
}

impl<'a> SgpdEntryIter<'a> {
    /// The next description: `None` after the last one, a `NotEnoughBytes`
    /// error in the `sgpd` box (after which the iterator ends) when it is cut
    /// off.
    pub fn next(&mut self) -> (r: Option<Result<&'a [u8], Error>>)
        ensures
            final(self).default_length == old(self).default_length,
            old(self).entry_count == 0 ==> r is None && final(self).entry_count == 0,
            old(self).entry_count > 0 ==> match sgpd_entry(old(self).entries@, old(self).default_length) {
                None => r == Some(Err::<&'a [u8], Error>(Error {
                    kind: sgpd_short(old(self).entries@, old(self).default_length),
                    offset: None,
                    box_type: Some(BoxType::SGPD),
                })) && final(self).entry_count == 0,
                Some((e, rest)) => (r matches Some(Ok(x)) && x@ == e) && final(self).entries@ == rest
                    && final(self).entry_count == old(self).entry_count - 1,
            },
    {
        if self.entry_count == 0 {
            return None;
        }
        if self.default_length > 0 {
            let len = self.default_length as usize;
            if self.entries.len() < len {
                self.entry_count = 0;
                return Some(Err(Error::in_box(ErrorKind::NotEnoughBytes { expected: len, remaining: self.entries.len() }, BoxType::SGPD)));
            }
            let entry = &self.entries[0..len];
            let rest = &self.entries[len..self.entries.len()];
            assert(entry@ =~= self.entries@.take(len as int));
            assert(rest@ =~= self.entries@.skip(len as int));
            self.entries = rest;
            self.entry_count = self.entry_count - 1;
            Some(Ok(entry))
        } else {
            if self.entries.len() < 4 {
                self.entry_count = 0;
                return Some(Err(Error::in_box(ErrorKind::NotEnoughBytes { expected: 4, remaining: self.entries.len() }, BoxType::SGPD)));
            }
            let ghost s = self.entries@;
            let len = ((self.entries[0] as u32) * 0x1000000 + (self.entries[1] as u32) * 0x10000 + (self.entries[2] as u32) * 0x100 + (self.entries[3] as u32)) as usize;
            assert(len == be32(s, 0));
            let t = &self.entries[4..self.entries.len()];
            assert(t@ =~= s.skip(4));
            self.entries = t;
            if t.len() < len {
                self.entry_count = 0;
                return Some(Err(Error::in_box(ErrorKind::NotEnoughBytes { expected: len, remaining: t.len() }, BoxType::SGPD)));
            }
            let entry = &t[0..len];
            let rest = &t[len..t.len()];
            assert(entry@ =~= t@.take(len as int));
            assert(rest@ =~= t@.skip(len as int));
            self.entries = rest;
            self.entry_count = self.entry_count - 1;
            Some(Ok(entry))
        }
    }
}

/// The header length of an `sgpd` payload of the given version.
pub open spec fn sgpd_header_len(version: u8) -> int {
    12 + (if version >= 1 { 4int } else { 0 }) + (if version >= 2 { 4int } else { 0 })
}

/// The payloads an `sgpd` view accepts: a header, and with a positive default
/// length exactly `entry_count` descriptions of it.
pub open spec fn sgpd_view_accepts(bytes: Seq<u8>) -> bool {
    let h = sgpd_header_len(bytes[0]);
    &&& bytes.len() >= 1
    &&& bytes.len() >= h
    &&& (bytes[0] >= 1 && be32(bytes, 8) > 0) ==> bytes.len() - h == be32(bytes, h - 4) * be32(bytes, 8)
}

/// Sample Group Description Box (`sgpd`) over a byte slice.
#[derive(Debug)]
pub struct SgpdBoxView<'a> {
    /// Box version.
    pub version: u8,
    /// Box flags.
    pub flags: SgpdFlags,
    /// The grouping type, matching an `sbgp` box.
    pub grouping_type: FourCC,
    /// The length of each description (version 1 or later; 0 = each has its own).
    pub default_length: Option<u32>,
    /// The description that applies to samples in no group (version 2 or later).
    pub default_sample_description_index: Option<u32>,
    /// The number of descriptions.
    pub entry_count: u32,
    /// The bytes of the descriptions.
    pub entries: &'a [u8],
}

impl<'a> SgpdBoxView<'a> {
    /// The bytes of the descriptions.
    pub fn entry_bytes(&self) -> (r: &'a [u8])
        ensures
            r@ == self.entries@,
    {
        self.entries
    }

    /// An iterator over the descriptions, or `None` in version 0, where their
    /// lengths are not known.
    pub fn sample_group_entries(&self) -> (r: Option<SgpdEntryIter<'a>>)
        ensures
            match self.default_length {
                None => r is None,
                Some(dl) => r matches Some(it) && it.entries@ == self.entries@ && it.entry_count
                    == self.entry_count && it.default_length == dl,
            },
    {
        match self.default_length {
            None => None,
            Some(dl) => Some(SgpdEntryIter { entries: self.entries, entry_count: self.entry_count, default_length: dl }),
        }
    }
}

impl BoxCodec for SgpdBoxView<'_> {
    open spec fn spec_boxtype(&self) -> BoxType {
        BoxType::SGPD
    }

    fn boxtype(&self) -> (r: BoxType) {
        BoxType::SGPD
    }
}

impl<'de> BoxDecode<'de> for SgpdBoxView<'de> {
    open spec fn spec_accepts(bytes: Seq<u8>) -> bool {
        sgpd_view_accepts(bytes)
    }

    open spec fn spec_decodes(bytes: Seq<u8>, v: Self) -> bool {
        let h = sgpd_header_len(bytes[0]);
        &&& v.version == bytes[0]
        &&& v.flags.0 == be24(bytes, 1)
        &&& v.grouping_type.0 == be32(bytes, 4)
        &&& v.default_length == (if bytes[0] >= 1 { Some(be32(bytes, 8)) } else { None::<u32> })
        &&& v.default_sample_description_index == (if bytes[0] >= 2 { Some(be32(bytes, 12)) } else { None::<u32> })
        &&& v.entry_count == be32(bytes, h - 4)
        &&& v.entries@ == bytes.skip(h)
    }

    fn decode(bytes: &'de [u8]) -> (r: Result<Self, Error>) {
        let mut cur = ReadCursor::new(bytes);
        let version = cur.read_u8()?;
        let flags = BoxFlags(cur.read_u24_be()?);
        let grouping_type = cur.read_fourcc()?;
        let default_length = if version >= 1 {
            Some(cur.read_u32_be()?)
        } else {
            None
        };
        let default_sample_description_index = if version >= 2 {
            Some(cur.read_u32_be()?)
        } else {
            None
        };
        let entry_count = cur.read_u32_be()?;
        if let Some(dl) = default_length {
            if dl > 0 {
                assert((entry_count as u64) * (dl as u64) <= 0xFFFF_FFFF * 0xFFFF_FFFF) by (nonlinear_arith)
                    requires
                        entry_count <= 0xFFFF_FFFF,
                        dl <= 0xFFFF_FFFF,
                ;
                let expected: u64 = (entry_count as u64) * (dl as u64);
                if (cur.remaining() as u64) != expected {
                    return Err(Error::at_in_box(ErrorKind::InvalidBoxSize { reason: "Entries length does not match entry_count * default_length", got: cur.remaining() as u64 }, cur.position() as u64, BoxType::SGPD));
                }
            }
        }
        let n = cur.remaining();
        let ghost h = cur.pos;
        let entries = cur.take(n)?;
        assert(entries@ =~= bytes@.skip(h as int));
        Ok(SgpdBoxView { version, flags, grouping_type, default_length, default_sample_description_index, entry_count, entries })
    }
}

/// The descriptions an owned `sgpd` box holds for a payload: those split by
/// the default length from version 1 on, the whole bytes as one in version 0.
pub open spec fn sgpd_owned_entries(bytes: Seq<u8>) -> Option<Seq<Seq<u8>>> {
    let h = sgpd_header_len(bytes[0]);
    if bytes[0] >= 1 {
        sgpd_split(bytes.skip(h), be32(bytes, h - 4) as nat, be32(bytes, 8))
    } else {
        Some(seq![bytes.skip(h)])
    }
}

/// Sample Group Description Box (`sgpd`) with its descriptions in vectors.
#[derive(Debug, Clone)]
pub struct SgpdBox {
    /// Box version.
    pub version: u8,
    /// Box flags.
    pub flags: SgpdFlags,
    /// The grouping type, matching an `sbgp` box.
    pub grouping_type: FourCC,
    /// The length of each description (required from version 1; 0 = each has its own).
    pub default_length: Option<u32>,
    /// The description that applies to samples in no group (required from version 2).
    pub default_sample_description_index: Option<u32>,
    /// The number of descriptions (written as such in version 0 only).
    pub entry_count: u32,
    /// The descriptions; in version 0 one vector holds all their bytes.
    pub entries: Vec<Vec<u8>>,
}

impl SgpdBox {
    /// The owned box of a view: its descriptions split from version 1 on, an
    /// error when one of them is cut off.
    pub fn try_from(view: &SgpdBoxView<'_>) -> (r: Result<SgpdBox, Error>)
        ensures
            (r is Ok) == (view.default_length matches Some(dl) ==> sgpd_split(view.entries@, view.entry_count as nat, dl) is Some),
            r matches Ok(b) ==> {
                &&& b.version == view.version
                &&& b.flags == view.flags
                &&& b.grouping_type == view.grouping_type
                &&& b.default_length == view.default_length
                &&& b.default_sample_description_index == view.default_sample_description_index
                &&& b.entry_count == view.entry_count
                &&& sgpd_descriptions(b.entries@) == (match view.default_length {
                    Some(dl) => sgpd_split(view.entries@, view.entry_count as nat, dl)->0,
                    None => seq![view.entries@],
                })
            },
    {
        let mut entries: Vec<Vec<u8>> = Vec::new();
        match view.sample_group_entries() {
            None => {
                entries.push(vstd::slice::slice_to_vec(view.entries));
                assert(sgpd_descriptions(entries@) =~= seq![view.entries@]);
            },
            Some(it) => {
                let mut it = it;
                let ghost dl = it.default_length;
                let ghost whole = sgpd_split(view.entries@, view.entry_count as nat, dl);
                assert(view.default_length == Some(dl));
                while it.entry_count > 0
                    invariant
                        view.default_length == Some(dl),
                        it.default_length == dl,
                        whole == sgpd_split(view.entries@, view.entry_count as nat, dl),
                        whole == (match sgpd_split(it.entries@, it.entry_count as nat, dl) {
                            Some(r) => Some(sgpd_descriptions(entries@) + r),
                            None => None,
                        }),
                    decreases it.entry_count,
                {
                    let ghost before = it.entries@;
                    let ghost cnt = it.entry_count;
                    match it.next() {
                        None => {
                            return Err(Error::in_box(ErrorKind::Overflow, BoxType::SGPD));
                        },
                        Some(Err(e)) => {
                            assert(sgpd_split(before, cnt as nat, dl) is None);
                            return Err(e);
                        },
                        Some(Ok(x)) => {
                            let ghost old_entries = sgpd_descriptions(entries@);
                            entries.push(vstd::slice::slice_to_vec(x));
                            proof {
                                let (e0, rest) = sgpd_entry(before, dl)->0;
                                assert(sgpd_descriptions(entries@) =~= old_entries.push(x@));
                                match sgpd_split(rest, (cnt - 1) as nat, dl) {
                                    Some(r) => {
                                        assert(old_entries + (seq![x@] + r) =~= sgpd_descriptions(entries@) + r);
                                    },
                                    None => {},
                                }
                            }
                        },
                    }
                }
                assert(sgpd_descriptions(entries@) + Seq::<Seq<u8>>::empty() =~= sgpd_descriptions(entries@));
            },
        }
        Ok(SgpdBox {
            version: view.version,
            flags: view.flags,
            grouping_type: view.grouping_type,
            default_length: view.default_length,
            default_sample_description_index: view.default_sample_description_index,
            entry_count: view.entry_count,
            entries,
        })
    }

    /// The length of the payload, or `usize::MAX` when it does not fit.
    fn total_len(&self) -> (r: usize)
        ensures
            r < usize::MAX ==> r == self.spec_encode().len(),
            r == usize::MAX ==> self.spec_encode().len() >= usize::MAX,
    {
        let mut len: usize = 12;
        if self.version >= 1 {
            len = len + 4;
        }
        if self.version >= 2 {
            len = len + 4;
        }
        let prefixed = self.version >= 1 && self.default_length == Some(0u32);
        let ghost es = sgpd_descriptions(self.entries@);
        let ghost head = seq![self.version] + u24_bytes(self.flags.0) + u32_bytes(self.grouping_type.0) + self.spec_defaults()
            + u32_bytes(self.spec_count());
        assert(head.len() == len);
        assert(self.spec_encode() == head + sgpd_join(es, prefixed));
        let mut i: usize = 0;
        while i < self.entries.len()
            invariant
                i <= self.entries@.len(),
                es == sgpd_descriptions(self.entries@),
                prefixed == self.spec_prefixed(),
                len == head.len() + sgpd_join(es.take(i as int), prefixed).len(),
                self.spec_encode() == head + sgpd_join(es, prefixed),
            decreases self.entries@.len() - i,
        {
            proof {
                lemma_sgpd_join_prefix_len(es, i as int, prefixed);
                assert(es.take(i + 1) =~= es.take(i as int).push(es[i as int]));
                lemma_sgpd_join_push(es.take(i as int), es[i as int], prefixed);
                assert(es[i as int] == self.entries@[i as int]@);
            }
            let n = self.entries[i].len();
            let add: usize = if prefixed {
                if n > usize::MAX - 4 {
                    return usize::MAX;
                }
                n + 4
            } else {
                n
            };
            assert(sgpd_piece(es[i as int], prefixed).len() == add);
            if add > usize::MAX - len {
                return usize::MAX;
            }
            len = len + add;
            i = i + 1;
        }
        assert(es.take(i as int) =~= es);
        if len == usize::MAX {
            return usize::MAX;
        }
        len
    }

    /// Whether descriptions are written with their own lengths.
    pub open spec fn spec_prefixed(&self) -> bool {
        self.version >= 1 && self.default_length == Some(0u32)
    }

    /// The description count as written.
    pub open spec fn spec_count(&self) -> u32 {
        if self.version >= 1 {
            self.entries@.len() as u32
        } else {
            self.entry_count
        }
    }

    /// The header fields after the grouping type, as written.
    pub open spec fn spec_defaults(&self) -> Seq<u8> {
        (if self.version >= 1 { u32_bytes(self.default_length->0) } else { Seq::empty() }) + (if self.version >= 2 {
            u32_bytes(self.default_sample_description_index->0)
        } else {
            Seq::empty()
        })
    }
}

impl BoxCodec for SgpdBox {
    open spec fn spec_boxtype(&self) -> BoxType {
        BoxType::SGPD
    }

    fn boxtype(&self) -> (r: BoxType) {
        BoxType::SGPD
    }
}

impl<'de> BoxDecode<'de> for SgpdBox {
    open spec fn spec_accepts(bytes: Seq<u8>) -> bool {
        sgpd_view_accepts(bytes) && sgpd_owned_entries(bytes) is Some
    }

    open spec fn spec_decodes(bytes: Seq<u8>, v: Self) -> bool {
        let h = sgpd_header_len(bytes[0]);
        &&& v.version == bytes[0]
        &&& v.flags.0 == be24(bytes, 1)
        &&& v.grouping_type.0 == be32(bytes, 4)
        &&& v.default_length == (if bytes[0] >= 1 { Some(be32(bytes, 8)) } else { None::<u32> })
        &&& v.default_sample_description_index == (if bytes[0] >= 2 { Some(be32(bytes, 12)) } else { None::<u32> })
        &&& v.entry_count == be32(bytes, h - 4)
        &&& sgpd_descriptions(v.entries@) == sgpd_owned_entries(bytes)->0
    }

    fn decode(bytes: &'de [u8]) -> (r: Result<Self, Error>) {
        let view = SgpdBoxView::decode(bytes)?;
        SgpdBox::try_from(&view)
    }
}

impl BoxEncode for SgpdBox {
    open spec fn spec_encode(&self) -> Seq<u8> {
        seq![self.version] + u24_bytes(self.flags.0) + u32_bytes(self.grouping_type.0) + self.spec_defaults()
            + u32_bytes(self.spec_count()) + sgpd_join(sgpd_descriptions(self.entries@), self.spec_prefixed())
    }

    open spec fn spec_encodable(&self) -> bool {
        &&& self.version >= 1 ==> self.default_length is Some
        &&& self.version >= 2 ==> self.default_sample_description_index is Some
        &&& self.version >= 1 ==> self.entries@.len() <= u32::MAX
        &&& self.spec_prefixed() ==> forall|i: int| 0 <= i < self.entries@.len() ==> #[trigger] self.entries@[i]@.len() <= u32::MAX
        &&& self.spec_encode().len() < usize::MAX
    }

    fn encoded_len(&self) -> (r: usize) {
        self.total_len()
    }

    fn encode_into(&self, bytes: &mut [u8]) -> (r: Result<usize, Error>) {
        let ghost s0 = bytes@;
        let ghost es = sgpd_descriptions(self.entries@);
        let dl: Option<u32> = if self.version >= 1 {
            match self.default_length {
                Some(x) => Some(x),
                None => {
                    return Err(Error::in_box(ErrorKind::InvalidBoxField { field: "default_length", reason: "default_length is required for version >= 1" }, BoxType::SGPD));
                },
            }
        } else {
            None
        };
        let dsdi: Option<u32> = if self.version >= 2 {
            match self.default_sample_description_index {
                Some(x) => Some(x),
                None => {
                    return Err(Error::in_box(ErrorKind::InvalidBoxField { field: "default_sample_description_index", reason: "default_sample_description_index is required for version >= 2" }, BoxType::SGPD));
                },
            }
        } else {
            None
        };
        let count: u32 = if self.version >= 1 {
            if self.entries.len() > 0xFFFF_FFFF {
                return Err(Error::in_box(ErrorKind::Overflow, BoxType::SGPD));
            }
            self.entries.len() as u32
        } else {
            self.entry_count
        };
        let prefixed = self.version >= 1 && self.default_length == Some(0u32);
        assert(prefixed == self.spec_prefixed());
        if prefixed {
            let mut k: usize = 0;
            while k < self.entries.len()
                invariant
                    self.spec_prefixed(),
                    k <= self.entries@.len(),
                    forall|i: int| 0 <= i < k ==> #[trigger] self.entries@[i]@.len() <= u32::MAX,
                decreases self.entries@.len() - k,
            {
                assert(self.entries@[k as int]@.len() == self.entries[k as int]@.len());
                if self.entries[k].len() > 0xFFFF_FFFF {
                    assert(!self.spec_encodable());
                    return Err(Error::in_box(ErrorKind::Overflow, BoxType::SGPD));
                }
                k = k + 1;
            }
        }
        let need = self.total_len();
        if need == usize::MAX || bytes.len() < need {
            return Err(short_buffer(need, bytes.len()));
        }
        let p = put_u8(bytes, 0, self.version)?;
        let p = put_u24(bytes, p, self.flags.0)?;
        proof {
            lemma_splice_concat(s0, 0, seq![self.version], u24_bytes(self.flags.0));
        }
        let ghost a = seq![self.version] + u24_bytes(self.flags.0);
        let p = put_u32(bytes, p, self.grouping_type.0)?;
        proof {
            lemma_splice_concat(s0, 0, a, u32_bytes(self.grouping_type.0));
            a = a + u32_bytes(self.grouping_type.0);
        }
        let ghost a0 = a;
        let p = match dl {
            Some(x) => {
                let q = put_u32(bytes, p, x)?;
                proof {
                    lemma_splice_concat(s0, 0, a, u32_bytes(x));
                    a = a + u32_bytes(x);
                }
                q
            },
            None => p,
        };
        let p = match dsdi {
            Some(x) => {
                let q = put_u32(bytes, p, x)?;
                proof {
                    lemma_splice_concat(s0, 0, a, u32_bytes(x));
                    a = a + u32_bytes(x);
                }
                q
            },
            None => p,
        };
        assert(a =~= a0 + self.spec_defaults());
        let p = put_u32(bytes, p, count)?;
        proof {
            lemma_splice_concat(s0, 0, a, u32_bytes(count));
            a = a + u32_bytes(count);
        }
        let mut p = p;
        let mut i: usize = 0;
        while i < self.entries.len()
            invariant
                i <= self.entries@.len(),
                es == sgpd_descriptions(self.entries@),
                prefixed == self.spec_prefixed(),
                prefixed ==> forall|j: int| 0 <= j < self.entries@.len() ==> #[trigger] self.entries@[j]@.len() <= u32::MAX,
                need == a.len() + sgpd_join(es, prefixed).len(),
                need <= bytes@.len(),
                bytes@.len() == s0.len(),
                p == a.len() + sgpd_join(es.take(i as int), prefixed).len(),
                bytes@ == splice(s0, 0, a + sgpd_join(es.take(i as int), prefixed)),
            decreases self.entries@.len() - i,
        {
            proof {
                assert(es.take(i + 1) =~= es.take(i as int).push(es[i as int]));
                lemma_sgpd_join_push(es.take(i as int), es[i as int], prefixed);
                lemma_sgpd_join_prefix_len(es, i as int, prefixed);
            }
            let e = &self.entries[i];
            let ghost before = a + sgpd_join(es.take(i as int), prefixed);
            if prefixed {
                let q = put_u32(bytes, p, e.len() as u32)?;
                proof {
                    lemma_splice_concat(s0, 0, before, u32_bytes(e@.len() as u32));
                }
                let q = put_slice(bytes, q, e.as_slice())?;
                proof {
                    lemma_splice_concat(s0, 0, before + u32_bytes(e@.len() as u32), e@);
                    assert(before + u32_bytes(e@.len() as u32) + e@ =~= before + sgpd_piece(es[i as int], prefixed));
                }
                p = q;
            } else {
                let q = put_slice(bytes, p, e.as_slice())?;
                proof {
                    lemma_splice_concat(s0, 0, before, e@);
                }
                p = q;
            }
            i = i + 1;
            assert(a + sgpd_join(es.take(i as int), prefixed) =~= before + sgpd_piece(es[i - 1], prefixed));
        }
        assert(es.take(i as int) =~= es);
        assert(a + sgpd_join(es, prefixed) =~= self.spec_encode());
        Ok(p)
    }
}

/// The bytes of the first descriptions are no longer than those of all of them.
proof fn lemma_sgpd_join_prefix_len(es: Seq<Seq<u8>>, i: int, prefixed: bool)
    requires
        0 <= i < es.len(),
    ensures
        sgpd_join(es.take(i + 1), prefixed).len() <= sgpd_join(es, prefixed).len(),
    decreases es.len() - i,
{
    if i + 1 < es.len() {
        lemma_sgpd_join_prefix_len(es, i + 1, prefixed);
        assert(es.take(i + 2) =~= es.take(i + 1).push(es[i + 1]));
        lemma_sgpd_join_push(es.take(i + 1), es[i + 1], prefixed);
    } else {
        assert(es.take(i + 1) =~= es);
    }
}

/// Descriptions of one fixed length take that length each.
proof fn lemma_sgpd_join_fixed_len(es: Seq<Seq<u8>>, d: u32)
    requires
        forall|i: int| 0 <= i < es.len() ==> #[trigger] es[i].len() == d,
    ensures
        sgpd_join(es, false).len() == es.len() * d,
    decreases es.len(),
{
    if es.len() > 0 {
        assert forall|i: int| 0 <= i < es.skip(1).len() implies #[trigger] es.skip(1)[i].len() == d by {
            assert(es.skip(1)[i] == es[i + 1]);
        }
        lemma_sgpd_join_fixed_len(es.skip(1), d);
        assert(es[0].len() == d);
        assert((es.len() - 1) * d + d == es.len() * d) by (nonlinear_arith);
    }
}

/// Decoding the encoding of an `sgpd` box gives the box back, when its fields
/// match its version (one blob of descriptions in version 0, a count equal to
/// the number of descriptions from version 1) and, with a positive default
/// length, every description has that length.
#[verifier::rlimit(40)]
pub proof fn lemma_sgpd_roundtrip(b: SgpdBox)
    requires
        b.flags.wf(),
        b.spec_encodable(),
        b.version == 0 ==> b.entries@.len() == 1 && b.default_length is None && b.default_sample_description_index is None,
        b.version == 1 ==> b.default_sample_description_index is None,
        b.version >= 1 ==> b.entry_count == b.entries@.len(),
        b.version >= 1 && b.default_length->0 > 0 ==> forall|i: int| 0 <= i < b.entries@.len() ==> #[trigger] b.entries@[i]@.len() == b.default_length->0,
    ensures
        SgpdBox::spec_accepts(b.spec_encode()),
        SgpdBox::spec_decodes(b.spec_encode(), b),
{
    let e = b.spec_encode();
    let es = sgpd_descriptions(b.entries@);
    let h = sgpd_header_len(b.version);
    let pre = seq![b.version] + u24_bytes(b.flags.0) + u32_bytes(b.grouping_type.0) + b.spec_defaults();
    let body = sgpd_join(es, b.spec_prefixed());
    assert(pre.len() == h - 4);
    assert(e =~= pre + u32_bytes(b.spec_count()) + body);
    assert(e[0] == b.version);
    lemma_be24_at(seq![b.version], b.flags.0, u32_bytes(b.grouping_type.0) + b.spec_defaults() + u32_bytes(b.spec_count()) + body);
    assert(e =~= seq![b.version] + u24_bytes(b.flags.0) + (u32_bytes(b.grouping_type.0) + b.spec_defaults() + u32_bytes(b.spec_count()) + body));
    lemma_be32_at(seq![b.version] + u24_bytes(b.flags.0), b.grouping_type.0, b.spec_defaults() + u32_bytes(b.spec_count()) + body);
    assert(e =~= seq![b.version] + u24_bytes(b.flags.0) + u32_bytes(b.grouping_type.0) + (b.spec_defaults() + u32_bytes(b.spec_count()) + body));
    let p8 = seq![b.version] + u24_bytes(b.flags.0) + u32_bytes(b.grouping_type.0);
    if b.version >= 1 {
        let d = b.default_length->0;
        if b.version >= 2 {
            let x = b.default_sample_description_index->0;
            assert(e =~= p8 + u32_bytes(d) + (u32_bytes(x) + u32_bytes(b.spec_count()) + body));
            lemma_be32_at(p8, d, u32_bytes(x) + u32_bytes(b.spec_count()) + body);
            assert(e =~= (p8 + u32_bytes(d)) + u32_bytes(x) + (u32_bytes(b.spec_count()) + body));
            lemma_be32_at(p8 + u32_bytes(d), x, u32_bytes(b.spec_count()) + body);
        } else {
            assert(e =~= p8 + u32_bytes(d) + (u32_bytes(b.spec_count()) + body));
            lemma_be32_at(p8, d, u32_bytes(b.spec_count()) + body);
        }
        assert(be32(e, 8) == d);
        assert forall|i: int| 0 <= i < es.len() implies #[trigger] es[i].len() <= u32::MAX by {
            assert(es[i] == b.entries@[i]@);
        }
        if d > 0 {
            assert forall|i: int| 0 <= i < es.len() implies #[trigger] es[i].len() == d by {
                assert(es[i] == b.entries@[i]@);
            }
            lemma_sgpd_join_fixed_len(es, d);
        }
    } else {
        assert(es =~= seq![b.entries@[0]@]);
        assert(body =~= es[0] + sgpd_join(es.skip(1), false));
        assert(es.skip(1) =~= Seq::<Seq<u8>>::empty());
        assert(sgpd_join(Seq::<Seq<u8>>::empty(), false) =~= Seq::<u8>::empty());
    }
    lemma_be32_at(pre, b.spec_count(), body);
    assert(e.skip(h) =~= body);
    if b.version >= 1 {
        lemma_sgpd_split_join(es, b.default_length->0, Seq::empty());
        assert(body + Seq::<u8>::empty() =~= body);
    }
}

/// The layout of an `sgpd` payload: version and flags, the grouping type at
/// 4, then the default length (version 1 and later) and the default sample
/// description index (version 2 and later), the entry count, and the
/// descriptions after a header of 12, 16 or 20 bytes.
pub proof fn lemma_sgpd_view_layout<'a>(bytes: Seq<u8>, v: SgpdBoxView<'a>)
    requires
        SgpdBoxView::spec_decodes(bytes, v),
    ensures
        v.version == bytes[0],
        v.flags.0 == be24(bytes, 1),
        v.grouping_type.0 == be32(bytes, 4),
        bytes[0] == 0 ==> v.default_length is None && v.default_sample_description_index is None
            && v.entry_count == be32(bytes, 8) && v.entries@ == bytes.skip(12),
        bytes[0] == 1 ==> v.default_length == Some(be32(bytes, 8)) && v.default_sample_description_index is None
            && v.entry_count == be32(bytes, 12) && v.entries@ == bytes.skip(16),
        bytes[0] >= 2 ==> v.default_length == Some(be32(bytes, 8)) && v.default_sample_description_index == Some(be32(bytes, 12))
            && v.entry_count == be32(bytes, 16) && v.entries@ == bytes.skip(20),
{
}

} // verus!
