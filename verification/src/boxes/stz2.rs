//! Compact Sample Size Box (`stz2`): the size of each sample of a track, packed
//! in 4, 8 or 16 bits.
use vstd::prelude::*;

use crate::bytes::{be16, be24, be32, u24_bytes, u32_bytes, lemma_be24_in, lemma_be32_in};
use crate::codec::{BoxCodec, BoxDecode, BoxEncode, short_buffer};
use crate::cursor::{put_u8, put_u24, put_u32, lemma_splice_concat, ReadCursor, splice};
use crate::error::{Error, ErrorKind};
use crate::flags::{BoxFlags, Stz2Flags};
use crate::types::BoxType;

verus! {

/// The number of entry bytes for `count` samples of `field_size` bits.
pub open spec fn stz2_entries_len(field_size: int, count: int) -> int {
    (field_size * count + 7) / 8
}

/// Whether `field_size` is one of the widths `stz2` allows.
pub open spec fn stz2_valid_field_size(field_size: u8) -> bool {
    field_size == 4 || field_size == 8 || field_size == 16
}

/// The size of sample `i` in the packed entries `e`.
pub open spec fn stz2_at(field_size: u8, e: Seq<u8>, i: int) -> u16 {
    if field_size == 4 {
        if i % 2 == 0 {
            (e[i / 2] / 16) as u16
        } else {
            (e[i / 2] % 16) as u16
        }
    } else if field_size == 8 {
        e[i] as u16
    } else {
        be16(e, 2 * i)
    }
}

/// The sizes of the first `count` samples in the packed entries `e`.
pub open spec fn stz2_values(field_size: u8, e: Seq<u8>, count: nat) -> Seq<u16> {
    Seq::new(count, |i: int| stz2_at(field_size, e, i))
}

/// The sizes held by a sequence of entries.
pub open spec fn stz2_sizes(es: Seq<Stz2Entry>) -> Seq<u16> {
    es.map_values(|e: Stz2Entry| e.entry_size)
}

/// The smallest width that holds every size, or `None` without sizes.
pub open spec fn stz2_field_size(vals: Seq<u16>) -> Option<u8> {
    if vals.len() == 0 {
        None
    } else if forall|i: int| 0 <= i < vals.len() ==> vals[i] <= 15 {
        Some(4u8)
    } else if forall|i: int| 0 <= i < vals.len() ==> vals[i] <= 255 {
        Some(8u8)
    } else {
        Some(16u8)
    }
}

/// The byte `j` of `vals` packed in `field_size` bits each (sizes cut to the
/// width; a missing last nibble is zero).
pub open spec fn stz2_packed_byte(field_size: u8, vals: Seq<u16>, j: int) -> u8 {
    if field_size == 4 {
        let hi = (vals[2 * j] % 16) as int;
        let lo = if 2 * j + 1 < vals.len() {
            (vals[2 * j + 1] % 16) as int
        } else {
            0
        };
        (hi * 16 + lo) as u8
    } else if field_size == 8 {
        (vals[j] % 256) as u8
    } else if j % 2 == 0 {
        (vals[j / 2] / 256) as u8
    } else {
        (vals[j / 2] % 256) as u8
    }
}

/// `vals` packed in `field_size` bits each.
pub open spec fn stz2_pack(field_size: u8, vals: Seq<u16>) -> Seq<u8> {
    Seq::new(
        stz2_entries_len(field_size as int, vals.len() as int) as nat,
        |j: int| stz2_packed_byte(field_size, vals, j),
    )
}

/// An entry of the `stz2` table: the size of one sample.
#[derive(Debug, Clone, Copy, PartialEq, Eq)]
pub struct Stz2Entry {
    /// Size of the sample in bytes.
    pub entry_size: u16,
}

/// An iterator over the sample sizes of a Compact Sample Size Box (`stz2`).
#[derive(Debug)]
pub struct Stz2EntryIter<'a> {
    /// The box.
    pub view: Stz2BoxView<'a>,
    /// The index of the next sample.
    pub index: u32,
}

impl<'a> Stz2EntryIter<'a> {
    /// The size of the next sample, `None` after the last one.
    pub fn next(&mut self) -> (r: Option<Stz2Entry>)
        requires
            old(self).view.wf(),
        ensures
            final(self).view == old(self).view,
            old(self).index < old(self).view.sample_count ==> final(self).index == old(self).index + 1
                && r == Some(Stz2Entry { entry_size: stz2_at(old(self).view.field_size, old(self).view.entries@, old(self).index as int) }),
            old(self).index >= old(self).view.sample_count ==> final(self).index == old(self).index && r is None,
    {
        if self.index >= self.view.sample_count {
            return None;
        }
        let e = self.view.entry_at(self.index);
        self.index = self.index + 1;
        Some(e)
    }

    /// The number of sizes left.
    pub fn len(&self) -> (r: usize)
        ensures
            self.index <= self.view.sample_count ==> r == self.view.sample_count - self.index,
    {
        if self.index <= self.view.sample_count {
            (self.view.sample_count - self.index) as usize
        } else {
            0
        }
    }
}

/// Compact Sample Size Box (`stz2`) over a byte slice.
#[derive(Debug)]
pub struct Stz2BoxView<'a> {
    /// Box version.
    pub version: u8,
    /// Box flags.
    pub flags: Stz2Flags,
    /// The width of each size in bits: 4, 8 or 16.
    pub field_size: u8,
    /// The number of samples.
    pub sample_count: u32,
    /// The packed sizes.
    pub entries: &'a [u8],
}

impl<'a> Stz2BoxView<'a> {
    /// Whether the packed sizes hold exactly `sample_count` sizes of a valid width.
    pub open spec fn wf(&self) -> bool {
        &&& stz2_valid_field_size(self.field_size)
        &&& self.entries@.len() == stz2_entries_len(self.field_size as int, self.sample_count as int)
    }

    /// The size of sample `i`.
    pub fn entry_at(&self, i: u32) -> (r: Stz2Entry)
        requires
            self.wf(),
            i < self.sample_count,
        ensures
            r.entry_size == stz2_at(self.field_size, self.entries@, i as int),
    {
        let n = self.sample_count;
        let fs = self.field_size;
        let v: u16 = if fs == 4 {
            assert(i / 2 < (fs as int * n as int + 7) / 8) by (nonlinear_arith)
                requires
                    fs == 4,
                    i < n,
            ;
            let b: u8 = self.entries[(i / 2) as usize];
            if i % 2 == 0 {
                (b / 16) as u16
            } else {
                (b % 16) as u16
            }
        } else if fs == 8 {
            assert(i < (fs as int * n as int + 7) / 8) by (nonlinear_arith)
                requires
                    fs == 8,
                    i < n,
            ;
            self.entries[i as usize] as u16
        } else {
            assert(2 * i + 1 < (fs as int * n as int + 7) / 8) by (nonlinear_arith)
                requires
                    fs == 16,
                    i < n,
            ;
            let j: usize = (2 * (i as u64)) as usize;
            (self.entries[j] as u16) * 256 + (self.entries[j + 1] as u16)
        };
        Stz2Entry { entry_size: v }
    }

    /// The sizes of the samples, in order.
    pub fn entries(&self) -> (r: Vec<Stz2Entry>)
        requires
            self.wf(),
        ensures
            stz2_sizes(r@) == stz2_values(self.field_size, self.entries@, self.sample_count as nat),
    {
        let n = self.sample_count;
        let fs = self.field_size;
        let mut out: Vec<Stz2Entry> = Vec::new();
        let mut i: u32 = 0;
        while i < n
            invariant
                self.wf(),
                fs == self.field_size,
                n == self.sample_count,
                i <= n,
                out@.len() == i,
                forall|k: int| 0 <= k < i ==> out@[k].entry_size == stz2_at(fs, self.entries@, k),
            decreases n - i,
        {
            out.push(self.entry_at(i));
            i = i + 1;
        }
        assert(stz2_sizes(out@) =~= stz2_values(fs, self.entries@, n as nat));
        out
    }

    /// An iterator over the sizes of the samples.
    pub fn iter(&self) -> (r: Stz2EntryIter<'a>)
        ensures
            r.view.entries@ == self.entries@,
            r.view.field_size == self.field_size,
            r.view.sample_count == self.sample_count,
            r.index == 0,
    {
        Stz2EntryIter {
            view: Stz2BoxView {
                version: self.version,
                flags: self.flags,
                field_size: self.field_size,
                sample_count: self.sample_count,
                entries: self.entries,
            },
            index: 0,
        }
    }

    /// An owned copy of this box.
    pub fn to_owned(&self) -> (r: Stz2Box)
        requires
            self.wf(),
        ensures
            r.version == self.version,
            r.flags == self.flags,
            stz2_sizes(r.entries@) == stz2_values(self.field_size, self.entries@, self.sample_count as nat),
    {
        Stz2Box::from(self)
    }
}

impl BoxCodec for Stz2BoxView<'_> {
    open spec fn spec_boxtype(&self) -> BoxType {
        BoxType::STZ2
    }

    fn boxtype(&self) -> (r: BoxType) {
        BoxType::STZ2
    }
}

/// The payloads an `stz2` box accepts: a valid width in the low byte of the
/// field-size word, and exactly the packed bytes for the sample count.
pub open spec fn stz2_accepts(bytes: Seq<u8>) -> bool {
    &&& bytes.len() >= 12
    &&& stz2_valid_field_size((be32(bytes, 4) % 256) as u8)
    &&& bytes.len() - 12 == stz2_entries_len((be32(bytes, 4) % 256) as int, be32(bytes, 8) as int)
}

impl<'de> BoxDecode<'de> for Stz2BoxView<'de> {
    open spec fn spec_accepts(bytes: Seq<u8>) -> bool {
        stz2_accepts(bytes)
    }

    open spec fn spec_decodes(bytes: Seq<u8>, v: Self) -> bool {
        &&& v.version == bytes[0]
        &&& v.flags.0 == be24(bytes, 1)
        &&& v.field_size == (be32(bytes, 4) % 256) as u8
        &&& v.sample_count == be32(bytes, 8)
        &&& v.entries@ == bytes.skip(12)
        &&& v.wf()
    }

    fn decode(bytes: &'de [u8]) -> (r: Result<Self, Error>) {
        let mut cur = ReadCursor::new(bytes);
        let version = cur.read_u8()?;
        let flags = BoxFlags(cur.read_u24_be()?);
        let word = cur.read_u32_be()?;
        let field_size: u8 = (word % 256) as u8;
        if !(field_size == 4 || field_size == 8 || field_size == 16) {
            return Err(Error::in_box(ErrorKind::InvalidBoxField { field: "field_size", reason: "must be 4, 8, or 16" }, BoxType::STZ2));
        }
        let sample_count = cur.read_u32_be()?;
        let total_bits: u64 = (field_size as u64) * (sample_count as u64);
        let expected: u64 = (total_bits + 7) / 8;
        if (cur.remaining() as u64) != expected {
            return Err(Error::in_box(ErrorKind::InvalidBoxField { field: "entries", reason: "size does not match field_size and sample_count" }, BoxType::STZ2));
        }
        let n = cur.remaining();
        let entries = cur.take(n)?;
        assert(entries@ =~= bytes@.skip(12));
        Ok(Stz2BoxView { version, flags, field_size, sample_count, entries })
    }
}

/// Compact Sample Size Box (`stz2`) with its sizes in a vector.
#[derive(Debug, Clone)]
pub struct Stz2Box {
    /// Box version.
    pub version: u8,
    /// Box flags.
    pub flags: Stz2Flags,
    /// The size of each sample.
    pub entries: Vec<Stz2Entry>,
}

impl Default for Stz2Box {
    fn default() -> (r: Stz2Box)
        ensures
            r.version == 0,
            r.flags.0 == 0,
            r.entries@.len() == 0,
    {
        Stz2Box { version: 0, flags: BoxFlags(0), entries: Vec::new() }
    }
}

impl Stz2Box {
    /// The owned box holding the sizes of a view.
    pub fn from(view: &Stz2BoxView<'_>) -> (r: Stz2Box)
        requires
            view.wf(),
        ensures
            r.version == view.version,
            r.flags == view.flags,
            stz2_sizes(r.entries@) == stz2_values(view.field_size, view.entries@, view.sample_count as nat),
    {
        Stz2Box { version: view.version, flags: view.flags, entries: view.entries() }
    }

    /// The smallest width (4, 8 or 16 bits) that holds every size, or `None`
    /// when there are no sizes.
    pub fn field_size(&self) -> (r: Option<u8>)
        ensures
            r == stz2_field_size(stz2_sizes(self.entries@)),
    {
        let n = self.entries.len();
        if n == 0 {
            return None;
        }
        let ghost vals = stz2_sizes(self.entries@);
        let mut le15 = true;
        let mut le255 = true;
        let mut i: usize = 0;
        while i < n
            invariant
                n == self.entries@.len(),
                vals == stz2_sizes(self.entries@),
                i <= n,
                le15 == (forall|k: int| 0 <= k < i ==> vals[k] <= 15),
                le255 == (forall|k: int| 0 <= k < i ==> vals[k] <= 255),
            decreases n - i,
        {
            let v = self.entries[i].entry_size;
            assert(vals[i as int] == v);
            if v > 15 {
                le15 = false;
            }
            if v > 255 {
                le255 = false;
            }
            i = i + 1;
            assert(le15 == (forall|k: int| 0 <= k < i ==> vals[k] <= 15)) by {
                if !le15 && v <= 15 {
                    let w = choose|k: int| 0 <= k < i - 1 && !(vals[k] <= 15);
                    assert(0 <= w < i && !(vals[w] <= 15));
                }
            }
            assert(le255 == (forall|k: int| 0 <= k < i ==> vals[k] <= 255)) by {
                if !le255 && v <= 255 {
                    let w = choose|k: int| 0 <= k < i - 1 && !(vals[k] <= 255);
                    assert(0 <= w < i && !(vals[w] <= 255));
                }
            }
        }
        if le15 {
            Some(4)
        } else if le255 {
            Some(8)
        } else {
            Some(16)
        }
    }
}

impl BoxCodec for Stz2Box {
    open spec fn spec_boxtype(&self) -> BoxType {
        BoxType::STZ2
    }

    fn boxtype(&self) -> (r: BoxType) {
        BoxType::STZ2
    }
}

impl<'de> BoxDecode<'de> for Stz2Box {
    open spec fn spec_accepts(bytes: Seq<u8>) -> bool {
        stz2_accepts(bytes)
    }

    open spec fn spec_decodes(bytes: Seq<u8>, v: Self) -> bool {
        &&& v.version == bytes[0]
        &&& v.flags.0 == be24(bytes, 1)
        &&& stz2_sizes(v.entries@) == stz2_values((be32(bytes, 4) % 256) as u8, bytes.skip(12), be32(bytes, 8) as nat)
    }

    fn decode(bytes: &'de [u8]) -> (r: Result<Self, Error>) {
        let view = Stz2BoxView::decode(bytes)?;
        Ok(Stz2Box::from(&view))
    }
}

impl Stz2Box {
    /// The width used to encode: the smallest that fits, 8 without sizes.
    pub open spec fn spec_width(&self) -> u8 {
        match stz2_field_size(stz2_sizes(self.entries@)) {
            Some(f) => f,
            None => 8u8,
        }
    }
}

impl BoxEncode for Stz2Box {
    open spec fn spec_encode(&self) -> Seq<u8> {
        seq![self.version] + u24_bytes(self.flags.0) + seq![0u8, 0u8, 0u8, self.spec_width()]
            + u32_bytes(self.entries@.len() as u32) + stz2_pack(self.spec_width(), stz2_sizes(self.entries@))
    }

    open spec fn spec_encodable(&self) -> bool {
        &&& self.entries@.len() <= u32::MAX
        &&& 12 + stz2_entries_len(self.spec_width() as int, self.entries@.len() as int) <= usize::MAX
    }

    fn encoded_len(&self) -> (r: usize) {
        let fs = self.field_size();
        let n = self.entries.len();
        match fs {
            None => {
                assert(stz2_sizes(self.entries@).len() == 0);
                assert(stz2_pack(self.spec_width(), stz2_sizes(self.entries@)).len() == 0);
                assert(self.spec_encode().len() == 12);
                12
            },
            Some(f) => {
                if n > 0xFFFF_FFFF {
                    usize::MAX
                } else {
                    assert(f == 4 || f == 8 || f == 16);
                    assert((f as u64) * (n as u64) <= 16 * 0xFFFF_FFFF) by (nonlinear_arith)
                        requires
                            f <= 16,
                            n <= 0xFFFF_FFFF,
                    ;
                    let bytes: u64 = ((f as u64) * (n as u64) + 7) / 8;
                    if bytes > (usize::MAX - 12) as u64 {
                        usize::MAX
                    } else {
                        assert(12 + bytes == 12 + stz2_entries_len(self.spec_width() as int, self.entries@.len() as int));
                        12 + bytes as usize
                    }
                }
            },
        }
    }

    fn encode_into(&self, bytes: &mut [u8]) -> (r: Result<usize, Error>) {
        let ghost s0 = bytes@;
        let ghost vals = stz2_sizes(self.entries@);
        let fs: u8 = match self.field_size() {
            Some(f) => f,
            None => 8,
        };
        assert(fs == self.spec_width());
        let n = self.entries.len();
        if n > 0xFFFF_FFFF {
            return Err(Error::in_box(ErrorKind::Overflow, BoxType::STZ2));
        }
        assert(fs == 4 || fs == 8 || fs == 16);
        assert((fs as u64) * (n as u64) <= 16 * 0xFFFF_FFFF) by (nonlinear_arith)
            requires
                fs <= 16,
                n <= 0xFFFF_FFFF,
        ;
        let packed: u64 = ((fs as u64) * (n as u64) + 7) / 8;
        if bytes.len() < 12 || ((bytes.len() - 12) as u64) < packed {
            return Err(short_buffer(12, bytes.len()));
        }
        let p = put_u8(bytes, 0, self.version)?;
        let p = put_u24(bytes, p, self.flags.0)?;
        proof {
            lemma_splice_concat(s0, 0, seq![self.version], u24_bytes(self.flags.0));
        }
        let ghost a = seq![self.version] + u24_bytes(self.flags.0);
        let p = put_u32(bytes, p, fs as u32)?;
        proof {
            assert(u32_bytes(fs as u32) =~= seq![0u8, 0u8, 0u8, fs]);
            lemma_splice_concat(s0, 0, a, seq![0u8, 0u8, 0u8, fs]);
        }
        let ghost a = a + seq![0u8, 0u8, 0u8, fs];
        let p = put_u32(bytes, p, n as u32)?;
        proof {
            lemma_splice_concat(s0, 0, a, u32_bytes(n as u32));
        }
        let ghost a = a + u32_bytes(n as u32);
        let ghost pk = stz2_pack(fs, vals);
        let np: usize = packed as usize;
        let mut j: usize = 0;
        while j < np
            invariant
                a.len() == 12,
                p == 12,
                np == pk.len(),
                pk == stz2_pack(fs, vals),
                vals == stz2_sizes(self.entries@),
                vals.len() == n,
                fs == 4 || fs == 8 || fs == 16,
                np == stz2_entries_len(fs as int, n as int),
                12 + np <= bytes@.len(),
                j <= np,
                bytes@ == splice(s0, 0, a + pk.take(j as int)),
                bytes@.len() == s0.len(),
            decreases np - j,
        {
            let b: u8 = if fs == 4 {
                assert(2 * j < n) by (nonlinear_arith)
                    requires
                        j < (4 * n + 7) / 8,
                ;
                let hi: u16 = self.entries[2 * j].entry_size % 16;
                let lo: u16 = if 2 * j + 1 < n {
                    self.entries[2 * j + 1].entry_size % 16
                } else {
                    0
                };
                (hi * 16 + lo) as u8
            } else if fs == 8 {
                assert(j < n) by (nonlinear_arith)
                    requires
                        j < (8 * n + 7) / 8,
                ;
                (self.entries[j].entry_size % 256) as u8
            } else {
                assert(j / 2 < n) by (nonlinear_arith)
                    requires
                        j < (16 * n + 7) / 8,
                ;
                let v = self.entries[j / 2].entry_size;
                if j % 2 == 0 {
                    (v / 256) as u8
                } else {
                    (v % 256) as u8
                }
            };
            assert(b == pk[j as int]);
            bytes[12 + j] = b;
            j = j + 1;
            assert(bytes@ =~= splice(s0, 0, a + pk.take(j as int)));
        }
        assert(pk.take(np as int) =~= pk);
        assert(a + pk =~= self.spec_encode());
        Ok(12 + np)
    }
}

/// Decoding the encoding of an `stz2` box gives the box back: the width it is
/// encoded with holds every size.
pub proof fn lemma_stz2_roundtrip(b: Stz2Box)
    requires
        b.flags.wf(),
        b.spec_encodable(),
    ensures
        Stz2Box::spec_accepts(b.spec_encode()),
        Stz2Box::spec_decodes(b.spec_encode(), b),
{
    let e = b.spec_encode();
    let vals = stz2_sizes(b.entries@);
    let fs = b.spec_width();
    let n = vals.len();
    let pk = stz2_pack(fs, vals);
    assert(e.subrange(0, 1) =~= seq![b.version]);
    assert(e[0] == e.subrange(0, 1)[0]);
    assert(e.subrange(1, 4) =~= u24_bytes(b.flags.0));
    lemma_be24_in(e, 1, b.flags.0);
    assert(e.subrange(4, 8) =~= u32_bytes(fs as u32)) by {
        assert(u32_bytes(fs as u32) =~= seq![0u8, 0u8, 0u8, fs]);
    }
    lemma_be32_in(e, 4, fs as u32);
    assert(e.subrange(8, 12) =~= u32_bytes(n as u32));
    lemma_be32_in(e, 8, n as u32);
    assert(e.skip(12) =~= pk);
    assert(stz2_values(fs, pk, n) =~= vals) by {
        assert forall|i: int| 0 <= i < n implies stz2_at(fs, pk, i) == vals[i] by {
            lemma_stz2_unpack(fs, vals, i);
        }
    }
}

/// A packed size reads back as the size when the width holds every size.
proof fn lemma_stz2_unpack(fs: u8, vals: Seq<u16>, i: int)
    requires
        0 <= i < vals.len(),
        fs == (match stz2_field_size(vals) {
            Some(f) => f,
            None => 8u8,
        }),
    ensures
        stz2_at(fs, stz2_pack(fs, vals), i) == vals[i],
{
    let n = vals.len() as int;
    let pk = stz2_pack(fs, vals);
    let v = vals[i];
    if fs == 4 {
        assert(v <= 15);
        let j = i / 2;
        assert(j < (4 * n + 7) / 8) by (nonlinear_arith)
            requires
                j == i / 2,
                0 <= i < n,
        ;
        assert(2 * j == i || 2 * j + 1 == i);
        let hi = (vals[2 * j] % 16) as int;
        let lo = if 2 * j + 1 < n {
            (vals[2 * j + 1] % 16) as int
        } else {
            0
        };
        assert(vals[2 * j] <= 15);
        assert(2 * j + 1 < n ==> vals[2 * j + 1] <= 15);
        assert(pk[j] == (hi * 16 + lo) as u8);
        assert(0 <= lo < 16 && 0 <= hi < 16);
        assert((hi * 16 + lo) / 16 == hi && (hi * 16 + lo) % 16 == lo) by (nonlinear_arith)
            requires
                0 <= lo < 16,
                0 <= hi < 16,
        ;
    } else if fs == 8 {
        assert(v <= 255);
        assert(i < (8 * n + 7) / 8) by (nonlinear_arith)
            requires
                0 <= i < n,
        ;
    } else {
        assert(2 * i + 1 < (16 * n + 7) / 8) by (nonlinear_arith)
            requires
                0 <= i < n,
        ;
        assert(pk[2 * i] == (v / 256) as u8);
        assert(pk[2 * i + 1] == (v % 256) as u8);
        assert((v / 256) * 256 + v % 256 == v) by (nonlinear_arith);
    }
}

} // verus!
