//! Edit List Box (`elst`): how the media time line maps onto the movie time
//! line, as a list of edits.
use vstd::prelude::*;

use crate::bytes::{be24, be32, be64, u24_bytes, u32_bytes, u64_bytes, lemma_u24_bytes_of, lemma_u32_bytes_of, lemma_u64_bytes_of, lemma_subrange_split, lemma_be24_in, lemma_be32_in, lemma_be64_in, lemma_sign_casts};
use crate::codec::{BoxCodec, BoxDecode, BoxEncode, short_buffer};
use crate::cursor::{put_u8, put_u24, put_u32, put_u64, lemma_splice_concat, ReadCursor};
use crate::error::{Error, ErrorKind};
use crate::flags::{BoxFlags, ElstFlags};
use crate::types::{BoxType, I16F16};
use crate::entries::{FixedEntry, spec_entries, spec_entries_bytes, read_entries, write_entries, lemma_entries_bytes_len, lemma_entries_roundtrip, lemma_entries_reencode};

verus! {

/// An `elst` entry as stored in version 0: 32-bit duration and media time.
#[derive(Debug, Clone, Copy, PartialEq, Eq)]
pub struct ElstRecord32 {
    /// Duration of the edit in the movie timescale.
    pub segment_duration: u32,
    /// Start time in the media timescale, or -1 for an empty edit.
    pub media_time: i32,
    /// Playback rate, as raw 16.16 fixed point.
    pub media_rate: i32,
}

impl FixedEntry for ElstRecord32 {
    open spec fn spec_size() -> nat {
        12
    }

    open spec fn spec_parse(s: Seq<u8>) -> Self {
        ElstRecord32 { segment_duration: be32(s, 0), media_time: be32(s, 4) as i32, media_rate: be32(s, 8) as i32 }
    }

    open spec fn spec_bytes(self) -> Seq<u8> {
        u32_bytes(self.segment_duration) + u32_bytes(self.media_time as u32) + u32_bytes(self.media_rate as u32)
    }

    fn entry_size() -> (r: usize) {
        12
    }

    fn read_entry(cur: &mut ReadCursor) -> (r: Self) {
        let segment_duration = match cur.read_u32_be() {
            Ok(x) => x,
            Err(_) => 0,
        };
        let media_time = match cur.read_i32_be() {
            Ok(x) => x,
            Err(_) => 0,
        };
        let media_rate = match cur.read_i32_be() {
            Ok(x) => x,
            Err(_) => 0,
        };
        ElstRecord32 { segment_duration, media_time, media_rate }
    }

    fn write_entry(&self, buf: &mut [u8], pos: usize) -> (r: usize) {
        let ghost s0 = buf@;
        let p = match put_u32(buf, pos, self.segment_duration) {
            Ok(q) => q,
            Err(_) => pos,
        };
        let ghost mut acc = u32_bytes(self.segment_duration);
        let p = match put_u32(buf, p, self.media_time as u32) {
            Ok(q) => q,
            Err(_) => pos,
        };
        proof {
            lemma_splice_concat(s0, pos as int, acc, u32_bytes(self.media_time as u32));
            acc = acc + u32_bytes(self.media_time as u32);
        }
        let p = match put_u32(buf, p, self.media_rate as u32) {
            Ok(q) => q,
            Err(_) => pos,
        };
        proof {
            lemma_splice_concat(s0, pos as int, acc, u32_bytes(self.media_rate as u32));
            acc = acc + u32_bytes(self.media_rate as u32);
        }
        p
    }

    proof fn lemma_bytes_len(e: Self) {
    }

    proof fn lemma_parse_bytes(e: Self, rest: Seq<u8>) {
        assert(e.segment_duration == be32((e.spec_bytes() + rest), 0)) by {
            assert((e.spec_bytes() + rest).subrange(0, 4) =~= u32_bytes(e.segment_duration));
            lemma_be32_in((e.spec_bytes() + rest), 0, e.segment_duration);
        }
        assert(e.media_time == be32((e.spec_bytes() + rest), 4) as i32) by {
            assert((e.spec_bytes() + rest).subrange(4, 8) =~= u32_bytes(e.media_time as u32));
            lemma_be32_in((e.spec_bytes() + rest), 4, e.media_time as u32);
            lemma_sign_casts(0, 0, e.media_time, 0, 0, 0, 0, 0);
        }
        assert(e.media_rate == be32((e.spec_bytes() + rest), 8) as i32) by {
            assert((e.spec_bytes() + rest).subrange(8, 12) =~= u32_bytes(e.media_rate as u32));
            lemma_be32_in((e.spec_bytes() + rest), 8, e.media_rate as u32);
            lemma_sign_casts(0, 0, e.media_rate, 0, 0, 0, 0, 0);
        }
    }

    proof fn lemma_bytes_parse(s: Seq<u8>) {
        lemma_u32_bytes_of(s, 0);
        lemma_u32_bytes_of(s, 4);
        lemma_sign_casts(0, 0, 0, 0, 0, 0, be32(s, 4), 0);
        lemma_subrange_split(s, 0, 4, 8);
        lemma_u32_bytes_of(s, 8);
        lemma_sign_casts(0, 0, 0, 0, 0, 0, be32(s, 8), 0);
        lemma_subrange_split(s, 0, 8, 12);
    }
}

impl ElstRecord32 {
    /// The entry stored in `bytes`.
    pub fn from_bytes(bytes: &[u8; 12]) -> (r: ElstRecord32)
        ensures
            r == ElstRecord32::spec_parse(bytes@),
    {
        let mut cur = ReadCursor::new(bytes);
        assert(cur.rest() =~= bytes@);
        ElstRecord32::read_entry(&mut cur)
    }

    /// The bytes of this entry.
    pub fn to_bytes(&self) -> (r: [u8; 12])
        ensures
            r@ == self.spec_bytes(),
    {
        let mut b = [0u8; 12];
        let p = self.write_entry(&mut b, 0);
        assert(b@ =~= self.spec_bytes());
        b
    }
}

/// An `elst` entry as stored in version 1: 64-bit duration and media time.
#[derive(Debug, Clone, Copy, PartialEq, Eq)]
pub struct ElstRecord64 {
    /// Duration of the edit in the movie timescale.
    pub segment_duration: u64,
    /// Start time in the media timescale, or -1 for an empty edit.
    pub media_time: i64,
    /// Playback rate, as raw 16.16 fixed point.
    pub media_rate: i32,
}

impl FixedEntry for ElstRecord64 {
    open spec fn spec_size() -> nat {
        20
    }

    open spec fn spec_parse(s: Seq<u8>) -> Self {
        ElstRecord64 { segment_duration: be64(s, 0), media_time: be64(s, 8) as i64, media_rate: be32(s, 16) as i32 }
    }

    open spec fn spec_bytes(self) -> Seq<u8> {
        u64_bytes(self.segment_duration) + u64_bytes(self.media_time as u64) + u32_bytes(self.media_rate as u32)
    }

    fn entry_size() -> (r: usize) {
        20
    }

    fn read_entry(cur: &mut ReadCursor) -> (r: Self) {
        let segment_duration = match cur.read_u64_be() {
            Ok(x) => x,
            Err(_) => 0,
        };
        let media_time = match cur.read_i64_be() {
            Ok(x) => x,
            Err(_) => 0,
        };
        let media_rate = match cur.read_i32_be() {
            Ok(x) => x,
            Err(_) => 0,
        };
        ElstRecord64 { segment_duration, media_time, media_rate }
    }

    fn write_entry(&self, buf: &mut [u8], pos: usize) -> (r: usize) {
        let ghost s0 = buf@;
        let p = match put_u64(buf, pos, self.segment_duration) {
            Ok(q) => q,
            Err(_) => pos,
        };
        let ghost mut acc = u64_bytes(self.segment_duration);
        let p = match put_u64(buf, p, self.media_time as u64) {
            Ok(q) => q,
            Err(_) => pos,
        };
        proof {
            lemma_splice_concat(s0, pos as int, acc, u64_bytes(self.media_time as u64));
            acc = acc + u64_bytes(self.media_time as u64);
        }
        let p = match put_u32(buf, p, self.media_rate as u32) {
            Ok(q) => q,
            Err(_) => pos,
        };
        proof {
            lemma_splice_concat(s0, pos as int, acc, u32_bytes(self.media_rate as u32));
            acc = acc + u32_bytes(self.media_rate as u32);
        }
        p
    }

    proof fn lemma_bytes_len(e: Self) {
    }

    proof fn lemma_parse_bytes(e: Self, rest: Seq<u8>) {
        assert(e.segment_duration == be64((e.spec_bytes() + rest), 0)) by {
            assert((e.spec_bytes() + rest).subrange(0, 8) =~= u64_bytes(e.segment_duration));
            lemma_be64_in((e.spec_bytes() + rest), 0, e.segment_duration);
        }
        assert(e.media_time == be64((e.spec_bytes() + rest), 8) as i64) by {
            assert((e.spec_bytes() + rest).subrange(8, 16) =~= u64_bytes(e.media_time as u64));
            lemma_be64_in((e.spec_bytes() + rest), 8, e.media_time as u64);
            lemma_sign_casts(0, 0, 0, e.media_time, 0, 0, 0, 0);
        }
        assert(e.media_rate == be32((e.spec_bytes() + rest), 16) as i32) by {
            assert((e.spec_bytes() + rest).subrange(16, 20) =~= u32_bytes(e.media_rate as u32));
            lemma_be32_in((e.spec_bytes() + rest), 16, e.media_rate as u32);
            lemma_sign_casts(0, 0, e.media_rate, 0, 0, 0, 0, 0);
        }
    }

    proof fn lemma_bytes_parse(s: Seq<u8>) {
        lemma_u64_bytes_of(s, 0);
        lemma_u64_bytes_of(s, 8);
        lemma_sign_casts(0, 0, 0, 0, 0, 0, 0, be64(s, 8));
        lemma_subrange_split(s, 0, 8, 16);
        lemma_u32_bytes_of(s, 16);
        lemma_sign_casts(0, 0, 0, 0, 0, 0, be32(s, 16), 0);
        lemma_subrange_split(s, 0, 16, 20);
    }
}

impl ElstRecord64 {
    /// The entry stored in `bytes`.
    pub fn from_bytes(bytes: &[u8; 20]) -> (r: ElstRecord64)
        ensures
            r == ElstRecord64::spec_parse(bytes@),
    {
        let mut cur = ReadCursor::new(bytes);
        assert(cur.rest() =~= bytes@);
        ElstRecord64::read_entry(&mut cur)
    }

    /// The bytes of this entry.
    pub fn to_bytes(&self) -> (r: [u8; 20])
        ensures
            r@ == self.spec_bytes(),
    {
        let mut b = [0u8; 20];
        let p = self.write_entry(&mut b, 0);
        assert(b@ =~= self.spec_bytes());
        b
    }
}

/// An edit of an edit list.
#[derive(Debug, Clone, Copy, PartialEq, Eq)]
pub struct ElstEntry {
    /// Duration of the edit in the movie timescale.
    pub segment_duration: u64,
    /// Start time in the media timescale, or -1 for an empty edit.
    pub media_time: i64,
    /// Playback rate.
    pub media_rate: I16F16,
}

impl ElstRecord32 {
    /// The edit this record stores.
    pub open spec fn spec_edit(self) -> ElstEntry {
        ElstEntry { segment_duration: self.segment_duration as u64, media_time: self.media_time as i64, media_rate: I16F16(self.media_rate) }
    }
}

impl ElstRecord64 {
    /// The edit this record stores.
    pub open spec fn spec_edit(self) -> ElstEntry {
        ElstEntry { segment_duration: self.segment_duration, media_time: self.media_time, media_rate: I16F16(self.media_rate) }
    }
}

impl ElstEntry {
    /// Whether the duration and media time fit the 32-bit fields of version 0.
    pub open spec fn fits32(self) -> bool {
        self.segment_duration <= u32::MAX && i32::MIN <= self.media_time <= i32::MAX
    }

    /// The version 0 record of this edit (fields cut to 32 bits).
    pub open spec fn spec_record32(self) -> ElstRecord32 {
        ElstRecord32 { segment_duration: self.segment_duration as u32, media_time: self.media_time as i32, media_rate: self.media_rate.0 }
    }

    /// The version 1 record of this edit.
    pub open spec fn spec_record64(self) -> ElstRecord64 {
        ElstRecord64 { segment_duration: self.segment_duration, media_time: self.media_time, media_rate: self.media_rate.0 }
    }
}

/// The edits stored in the entry bytes `s` of a box of the given version
/// (version 0 or 1); trailing bytes too few for an entry are ignored.
pub open spec fn elst_edits(version: u8, s: Seq<u8>) -> Seq<ElstEntry> {
    if version == 0 {
        spec_entries::<ElstRecord32>(s).map_values(|r: ElstRecord32| r.spec_edit())
    } else {
        spec_entries::<ElstRecord64>(s).map_values(|r: ElstRecord64| r.spec_edit())
    }
}

/// The entry bytes of edits in a box of the given version (version 1 for any
/// version but 0).
pub open spec fn elst_bytes(version: u8, es: Seq<ElstEntry>) -> Seq<u8> {
    if version == 0 {
        spec_entries_bytes(es.map_values(|e: ElstEntry| e.spec_record32()))
    } else {
        spec_entries_bytes(es.map_values(|e: ElstEntry| e.spec_record64()))
    }
}

/// The size of an `elst` entry in a box of the given version.
pub open spec fn elst_entry_size(version: u8) -> int {
    if version == 0 {
        12
    } else {
        20
    }
}

/// Edit List Box (`elst`) over a byte slice.
#[derive(Debug)]
pub struct ElstBoxView<'a> {
    /// Box version (0 or 1).
    pub version: u8,
    /// Box flags.
    pub flags: ElstFlags,
    /// The number of edits.
    pub entry_count: u32,
    /// The bytes of the edits.
    pub entries: &'a [u8],
}

impl<'a> ElstBoxView<'a> {
    /// The edits; an error for a version other than 0 and 1.
    pub fn entries(&self) -> (r: Result<Vec<ElstEntry>, Error>)
        ensures
            (r is Ok) == (self.version == 0 || self.version == 1),
            r matches Ok(v) ==> v@ == elst_edits(self.version, self.entries@),
    {
        if self.version == 0 {
            let recs: Vec<ElstRecord32> = read_entries(self.entries);
            let mut out: Vec<ElstEntry> = Vec::new();
            let mut i: usize = 0;
            while i < recs.len()
                invariant
                    i <= recs@.len(),
                    out@ == recs@.take(i as int).map_values(|r: ElstRecord32| r.spec_edit()),
                decreases recs@.len() - i,
            {
                let rec = recs[i];
                let ghost before = out@;
                out.push(ElstEntry { segment_duration: rec.segment_duration as u64, media_time: rec.media_time as i64, media_rate: I16F16(rec.media_rate) });
                assert(recs@.take(i + 1) =~= recs@.take(i as int).push(rec));
                assert(out@ =~= recs@.take(i + 1).map_values(|r: ElstRecord32| r.spec_edit()));
                i = i + 1;
            }
            assert(recs@.take(i as int) =~= recs@);
            Ok(out)
        } else if self.version == 1 {
            let recs: Vec<ElstRecord64> = read_entries(self.entries);
            let mut out: Vec<ElstEntry> = Vec::new();
            let mut i: usize = 0;
            while i < recs.len()
                invariant
                    i <= recs@.len(),
                    out@ == recs@.take(i as int).map_values(|r: ElstRecord64| r.spec_edit()),
                decreases recs@.len() - i,
            {
                let rec = recs[i];
                out.push(ElstEntry { segment_duration: rec.segment_duration, media_time: rec.media_time, media_rate: I16F16(rec.media_rate) });
                assert(recs@.take(i + 1) =~= recs@.take(i as int).push(rec));
                assert(out@ =~= recs@.take(i + 1).map_values(|r: ElstRecord64| r.spec_edit()));
                i = i + 1;
            }
            assert(recs@.take(i as int) =~= recs@);
            Ok(out)
        } else {
            Err(Error::in_box(ErrorKind::InvalidBoxVersion { reason: "ELST box version must be 0 or 1", got: self.version }, BoxType::ELST))
        }
    }
}

impl BoxCodec for ElstBoxView<'_> {
    open spec fn spec_boxtype(&self) -> BoxType {
        BoxType::ELST
    }

    fn boxtype(&self) -> (r: BoxType) {
        BoxType::ELST
    }
}

/// The payloads an `elst` box accepts: version 0 or 1, and exactly
/// `entry_count` entries of that version's size.
pub open spec fn elst_accepts(bytes: Seq<u8>) -> bool {
    &&& bytes.len() >= 8
    &&& (bytes[0] == 0 || bytes[0] == 1)
    &&& bytes.len() - 8 == be32(bytes, 4) * elst_entry_size(bytes[0])
}

impl<'de> BoxDecode<'de> for ElstBoxView<'de> {
    open spec fn spec_accepts(bytes: Seq<u8>) -> bool {
        elst_accepts(bytes)
    }

    open spec fn spec_decodes(bytes: Seq<u8>, v: Self) -> bool {
        &&& v.version == bytes[0]
        &&& v.flags.0 == be24(bytes, 1)
        &&& v.entry_count == be32(bytes, 4)
        &&& v.entries@ == bytes.skip(8)
    }

    fn decode(bytes: &'de [u8]) -> (r: Result<Self, Error>) {
        let mut cur = ReadCursor::new(bytes);
        let version = cur.read_u8()?;
        let flags = BoxFlags(cur.read_u24_be()?);
        let entry_count = cur.read_u32_be()?;
        let size: u64 = if version == 0 {
            12
        } else if version == 1 {
            20
        } else {
            return Err(Error::in_box(ErrorKind::InvalidBoxVersion { reason: "ELST box version must be 0 or 1", got: version }, BoxType::ELST));
        };
        assert((entry_count as u64) * size <= 0xFFFF_FFFF * 20) by (nonlinear_arith)
            requires
                entry_count <= 0xFFFF_FFFF,
                size <= 20,
        ;
        let expected: u64 = (entry_count as u64) * size;
        if (cur.remaining() as u64) != expected {
            return Err(Error::in_box(ErrorKind::InvalidBoxSize { reason: "Entries length does not match entry count and version", got: cur.remaining() as u64 }, BoxType::ELST));
        }
        let n = cur.remaining();
        let entries = cur.take(n)?;
        assert(entries@ =~= bytes@.skip(8));
        Ok(ElstBoxView { version, flags, entry_count, entries })
    }
}

/// Edit List Box (`elst`) with its edits in a vector.
#[derive(Debug, Clone)]
pub struct ElstBox {
    /// Box version: 0 for 32-bit durations and times, 1 for 64-bit ones.
    pub version: u8,
    /// Box flags.
    pub flags: ElstFlags,
    /// The edits.
    pub entries: Vec<ElstEntry>,
}

impl ElstBox {
    /// An edit list of `entries`, in version 0 when every duration and media
    /// time fits in 32 bits, else in version 1; no flags.
    pub fn new(entries: Vec<ElstEntry>) -> (r: ElstBox)
        ensures
            r.entries@ == entries@,
            r.flags.0 == 0,
            r.version == (if forall|i: int| 0 <= i < entries@.len() ==> #[trigger] entries@[i].fits32() { 0u8 } else { 1u8 }),
    {
        let mut all_fit = true;
        let mut i: usize = 0;
        while i < entries.len()
            invariant
                i <= entries@.len(),
                all_fit == (forall|k: int| 0 <= k < i ==> #[trigger] entries@[k].fits32()),
            decreases entries@.len() - i,
        {
            let e = entries[i];
            if e.segment_duration > 0xFFFF_FFFF || e.media_time > 0x7FFF_FFFF || e.media_time < -0x8000_0000 {
                all_fit = false;
            }
            i = i + 1;
            assert(all_fit == (forall|k: int| 0 <= k < i ==> #[trigger] entries@[k].fits32())) by {
                if all_fit {
                    assert forall|k: int| 0 <= k < i implies #[trigger] entries@[k].fits32() by {
                        if k == i - 1 {
                            assert(entries@[k] == e);
                        }
                    }
                } else if e.fits32() {
                    let w = choose|k: int| 0 <= k < i - 1 && !(#[trigger] entries@[k].fits32());
                    assert(0 <= w < i && !entries@[w].fits32());
                }
            }
        }
        let version: u8 = if all_fit { 0 } else { 1 };
        ElstBox { version, flags: BoxFlags(0), entries }
    }

    /// The owned box of a view; an error for a version other than 0 and 1.
    pub fn try_from(view: &ElstBoxView<'_>) -> (r: Result<ElstBox, Error>)
        ensures
            (r is Ok) == (view.version == 0 || view.version == 1),
            r matches Ok(b) ==> b.version == view.version && b.flags == view.flags && b.entries@ == elst_edits(view.version, view.entries@),
    {
        let entries = view.entries()?;
        Ok(ElstBox { version: view.version, flags: view.flags, entries })
    }
}

impl BoxCodec for ElstBox {
    open spec fn spec_boxtype(&self) -> BoxType {
        BoxType::ELST
    }

    fn boxtype(&self) -> (r: BoxType) {
        BoxType::ELST
    }
}

impl<'de> BoxDecode<'de> for ElstBox {
    open spec fn spec_accepts(bytes: Seq<u8>) -> bool {
        elst_accepts(bytes)
    }

    open spec fn spec_decodes(bytes: Seq<u8>, v: Self) -> bool {
        &&& v.version == bytes[0]
        &&& v.flags.0 == be24(bytes, 1)
        &&& v.entries@ == elst_edits(bytes[0], bytes.skip(8))
    }

    fn decode(bytes: &'de [u8]) -> (r: Result<Self, Error>) {
        let view = ElstBoxView::decode(bytes)?;
        ElstBox::try_from(&view)
    }
}

impl BoxEncode for ElstBox {
    open spec fn spec_encode(&self) -> Seq<u8> {
        seq![self.version] + u24_bytes(self.flags.0) + u32_bytes(self.entries@.len() as u32) + elst_bytes(self.version, self.entries@)
    }

    open spec fn spec_encodable(&self) -> bool {
        &&& self.entries@.len() <= u32::MAX
        &&& self.version == 0 ==> forall|i: int| 0 <= i < self.entries@.len() ==> #[trigger] self.entries@[i].fits32()
        &&& 8 + self.entries@.len() * elst_entry_size(self.version) <= usize::MAX
    }

    fn encoded_len(&self) -> (r: usize) {
        let size: usize = if self.version == 0 { 12 } else { 20 };
        if self.entries.len() > (usize::MAX - 8) / size {
            return usize::MAX;
        }
        proof {
            lemma_elst_bytes_len(self.version, self.entries@);
        }
        8 + self.entries.len() * size
    }

    fn encode_into(&self, bytes: &mut [u8]) -> (r: Result<usize, Error>) {
        let ghost s0 = bytes@;
        proof {
            lemma_elst_bytes_len(self.version, self.entries@);
        }
        if self.entries.len() > 0xFFFF_FFFF {
            return Err(Error::in_box(ErrorKind::Overflow, BoxType::ELST));
        }
        let size: usize = if self.version == 0 { 12 } else { 20 };
        if self.entries.len() > (usize::MAX - 8) / size {
            return Err(Error::in_box(ErrorKind::Overflow, BoxType::ELST));
        }
        let mut recs32: Vec<ElstRecord32> = Vec::new();
        let mut recs64: Vec<ElstRecord64> = Vec::new();
        let mut i: usize = 0;
        while i < self.entries.len()
            invariant
                i <= self.entries@.len(),
                self.version == 0 ==> forall|k: int| 0 <= k < i ==> #[trigger] self.entries@[k].fits32(),
                self.version == 0 ==> recs32@ == self.entries@.take(i as int).map_values(|e: ElstEntry| e.spec_record32()),
                self.version != 0 ==> recs64@ == self.entries@.take(i as int).map_values(|e: ElstEntry| e.spec_record64()),
            decreases self.entries@.len() - i,
        {
            let e = self.entries[i];
            assert(self.entries@.take(i + 1) =~= self.entries@.take(i as int).push(e));
            if self.version == 0 {
                if e.segment_duration > 0xFFFF_FFFF || e.media_time > 0x7FFF_FFFF || e.media_time < -0x8000_0000 {
                    assert(!self.entries@[i as int].fits32());
                    return Err(Error::in_box(ErrorKind::Overflow, BoxType::ELST));
                }
                recs32.push(ElstRecord32 { segment_duration: e.segment_duration as u32, media_time: e.media_time as i32, media_rate: e.media_rate.0 });
                assert(recs32@ =~= self.entries@.take(i + 1).map_values(|e: ElstEntry| e.spec_record32()));
            } else {
                recs64.push(ElstRecord64 { segment_duration: e.segment_duration, media_time: e.media_time, media_rate: e.media_rate.0 });
                assert(recs64@ =~= self.entries@.take(i + 1).map_values(|e: ElstEntry| e.spec_record64()));
            }
            i = i + 1;
        }
        assert(self.entries@.take(i as int) =~= self.entries@);
        if bytes.len() < 8 || (bytes.len() - 8) / size < self.entries.len() {
            return Err(short_buffer(8, bytes.len()));
        }
        let p = put_u8(bytes, 0, self.version)?;
        let p = put_u24(bytes, p, self.flags.0)?;
        proof {
            lemma_splice_concat(s0, 0, seq![self.version], u24_bytes(self.flags.0));
        }
        let p = put_u32(bytes, p, self.entries.len() as u32)?;
        let ghost a = seq![self.version] + u24_bytes(self.flags.0) + u32_bytes(self.entries@.len() as u32);
        proof {
            lemma_splice_concat(s0, 0, seq![self.version] + u24_bytes(self.flags.0), u32_bytes(self.entries@.len() as u32));
        }
        let q = if self.version == 0 {
            proof {
                lemma_entries_bytes_len(recs32@);
            }
            write_entries(bytes, p, &recs32)
        } else {
            proof {
                lemma_entries_bytes_len(recs64@);
            }
            write_entries(bytes, p, &recs64)
        };
        proof {
            lemma_splice_concat(s0, 0, a, elst_bytes(self.version, self.entries@));
        }
        Ok(q)
    }
}

/// The entry bytes of edits take the entry size of the version each.
proof fn lemma_elst_bytes_len(version: u8, es: Seq<ElstEntry>)
    ensures
        elst_bytes(version, es).len() == es.len() * elst_entry_size(version),
{
    if version == 0 {
        lemma_entries_bytes_len(es.map_values(|e: ElstEntry| e.spec_record32()));
    } else {
        lemma_entries_bytes_len(es.map_values(|e: ElstEntry| e.spec_record64()));
    }
}

/// Decoding the encoding of an `elst` box gives the box back, in version 0
/// and 1.
pub proof fn lemma_elst_roundtrip(b: ElstBox)
    requires
        b.flags.wf(),
        b.version == 0 || b.version == 1,
        b.spec_encodable(),
    ensures
        ElstBox::spec_accepts(b.spec_encode()),
        ElstBox::spec_decodes(b.spec_encode(), b),
{
    let e = b.spec_encode();
    lemma_elst_bytes_len(b.version, b.entries@);
    assert(e.subrange(0, 1) =~= seq![b.version]);
    assert(e[0] == e.subrange(0, 1)[0]);
    assert(e.subrange(1, 4) =~= u24_bytes(b.flags.0));
    lemma_be24_in(e, 1, b.flags.0);
    assert(e.subrange(4, 8) =~= u32_bytes(b.entries@.len() as u32));
    lemma_be32_in(e, 4, b.entries@.len() as u32);
    assert(e.skip(8) =~= elst_bytes(b.version, b.entries@));
    if b.version == 0 {
        let rs = b.entries@.map_values(|x: ElstEntry| x.spec_record32());
        lemma_entries_roundtrip(rs);
        assert forall|i: int| 0 <= i < b.entries@.len() implies #[trigger] rs[i].spec_edit() == b.entries@[i] by {
            let x = b.entries@[i];
            assert(x.fits32());
            lemma_sign_casts(0, 0, 0, x.media_time, 0, 0, 0, 0);
        }
        assert(rs.map_values(|r: ElstRecord32| r.spec_edit()) =~= b.entries@);
    } else {
        let rs = b.entries@.map_values(|x: ElstEntry| x.spec_record64());
        lemma_entries_roundtrip(rs);
        assert(rs.map_values(|r: ElstRecord64| r.spec_edit()) =~= b.entries@);
    }
}

/// The layout of a `elst` payload: what a view of `elst` box decoded from
/// `bytes` holds, field by field, read at fixed offsets.
pub proof fn lemma_elst_box_view_layout<'a>(bytes: Seq<u8>, v: ElstBoxView<'a>)
    requires
        ElstBoxView::spec_decodes(bytes, v),
    ensures
        v.version == bytes[0],
        v.flags.0 == be24(bytes, 1),
        v.entry_count == be32(bytes, 4),
        v.entries@ == bytes.skip(8),
{
}

/// The layout of a table of `ElstRecord32` entries: entry `i`, as the box hands it
/// out, holds `segment_duration`, `media_time`, `media_rate` read big-endian in that order from the 12 bytes
/// at `12 * i`; an entry is written as those fields in that order.
pub proof fn lemma_elst32_entries_layout(s: Seq<u8>, i: int, e: ElstRecord32)
    requires
        0 <= i,
        (i + 1) * 12 <= s.len(),
    ensures
        crate::entries::spec_entries::<ElstRecord32>(s).len() > i,
        crate::entries::spec_entries::<ElstRecord32>(s)[i].segment_duration == crate::bytes::be32(s, 12 * i + 0),
        crate::entries::spec_entries::<ElstRecord32>(s)[i].media_time == crate::bytes::be32(s, 12 * i + 4) as i32,
        crate::entries::spec_entries::<ElstRecord32>(s)[i].media_rate == crate::bytes::be32(s, 12 * i + 8) as i32,
        e.spec_bytes() == u32_bytes(e.segment_duration) + u32_bytes(e.media_time as u32) + u32_bytes(e.media_rate as u32),
{
    crate::entries::lemma_entries_index::<ElstRecord32>(s, i);
    assert(i * ElstRecord32::spec_size() == 12 * i);
    crate::bytes::lemma_be_skip(s, 12 * i, 0);
    crate::bytes::lemma_be_skip(s, 12 * i, 4);
    crate::bytes::lemma_be_skip_short(s, 12 * i, 8);
}

/// The layout of a table of `ElstRecord64` entries: entry `i`, as the box hands it
/// out, holds `segment_duration`, `media_time`, `media_rate` read big-endian in that order from the 20 bytes
/// at `20 * i`; an entry is written as those fields in that order.
pub proof fn lemma_elst64_entries_layout(s: Seq<u8>, i: int, e: ElstRecord64)
    requires
        0 <= i,
        (i + 1) * 20 <= s.len(),
    ensures
        crate::entries::spec_entries::<ElstRecord64>(s).len() > i,
        crate::entries::spec_entries::<ElstRecord64>(s)[i].segment_duration == crate::bytes::be64(s, 20 * i + 0),
        crate::entries::spec_entries::<ElstRecord64>(s)[i].media_time == crate::bytes::be64(s, 20 * i + 8) as i64,
        crate::entries::spec_entries::<ElstRecord64>(s)[i].media_rate == crate::bytes::be32(s, 20 * i + 16) as i32,
        e.spec_bytes() == u64_bytes(e.segment_duration) + u64_bytes(e.media_time as u64) + u32_bytes(e.media_rate as u32),
{
    crate::entries::lemma_entries_index::<ElstRecord64>(s, i);
    assert(i * ElstRecord64::spec_size() == 20 * i);
    crate::bytes::lemma_be_skip(s, 20 * i, 0);
    crate::bytes::lemma_be_skip(s, 20 * i, 8);
    crate::bytes::lemma_be_skip_short(s, 20 * i, 16);
}

} // verus!
