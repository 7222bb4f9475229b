//! Track Run Box (`trun`): the durations, sizes, flags and composition time
//! offsets of a contiguous run of samples of a track fragment. The box flags
//! say which of these each sample record holds, and which of the optional
//! fields of the box itself are present.
use vstd::prelude::*;

use crate::bytes::{be24, be32, u24_bytes, u32_bytes, lemma_be24_at, lemma_be32_at, lemma_sign_casts};
use crate::codec::{BoxCodec, BoxDecode, BoxEncode, short_buffer};
use crate::cursor::{ReadCursor, splice, put_u8, put_u24, put_u32, lemma_splice_concat};
use crate::error::{Error, ErrorKind};
use crate::flags::{BoxFlags, TrunFlags};
use crate::types::BoxType;
use crate::boxes::common::SampleFlags;

verus! {

/// Whether the `trun` flags `flags` hold every bit of `mask`.
pub open spec fn trun_has(flags: u32, mask: u32) -> bool {
    BoxFlags::has(flags, mask)
}

/// The width of the four-byte field with flag `mask` under `flags`.
pub open spec fn trun_width(flags: u32, mask: u32) -> int {
    if trun_has(flags, mask) {
        4
    } else {
        0
    }
}

/// The size of each sample record: four bytes for each per-sample field present.
pub open spec fn spec_sample_data_size(flags: u32) -> int {
    trun_width(flags, 0x000100) + trun_width(flags, 0x000200) + trun_width(flags, 0x000400) + trun_width(flags, 0x000800)
}

/// The size of the fields before the sample records: version, flags and
/// sample count, then the data offset and the first sample's flags when present.
pub open spec fn trun_head_len(flags: u32) -> int {
    8 + trun_width(flags, 0x000001) + trun_width(flags, 0x000004)
}

/// The composition time offset of the raw field `raw`: unsigned in version 0,
/// signed otherwise.
pub open spec fn cto_of(version: u8, raw: u32) -> i64 {
    if version == 0 {
        raw as i64
    } else {
        (raw as i32) as i64
    }
}

/// Whether the composition time offset `x` can be written in a box of `version`.
pub open spec fn cto_fits(version: u8, x: i64) -> bool {
    if version == 0 {
        0 <= x <= u32::MAX
    } else {
        i32::MIN <= x <= i32::MAX
    }
}

/// The raw field that the composition time offset `x` is written as.
pub open spec fn cto_raw(version: u8, x: i64) -> u32 {
    if version == 0 {
        x as u32
    } else {
        (x as i32) as u32
    }
}

/// The size in bytes of each sample record under `flags`.
fn sample_data_size(flags: BoxFlags) -> (r: usize)
    ensures
        r == spec_sample_data_size(flags.0),
        r <= 16,
{
    let mut size: usize = 0;
    if flags.contains(BoxFlags::SAMPLE_DURATION_PRESENT) {
        size = size + 4;
    }
    if flags.contains(BoxFlags::SAMPLE_SIZE_PRESENT) {
        size = size + 4;
    }
    if flags.contains(BoxFlags::SAMPLE_FLAGS_PRESENT) {
        size = size + 4;
    }
    if flags.contains(BoxFlags::SAMPLE_COMPOSITION_TIME_OFFSETS_PRESENT) {
        size = size + 4;
    }
    size
}

/// The properties of one sample of a run: each is `Some` exactly when the
/// run's flags say its records hold it.
#[derive(Debug, Clone, Copy, PartialEq, Eq)]
pub struct TrunEntry {
    /// Sample duration in units of the track's timescale.
    pub duration: Option<u32>,
    /// Sample size in bytes.
    pub size: Option<u32>,
    /// Sample flags.
    pub flags: Option<SampleFlags>,
    /// Composition time offset relative to the decoding time: within
    /// `0..=u32::MAX` in version 0 and within the range of `i32` in version 1.
    pub composition_time_offset: Option<i64>,
}

/// The sample of the record `c` in a run with `flags` and `version`.
pub open spec fn trun_entry_of(flags: u32, version: u8, c: Seq<u8>) -> TrunEntry {
    let w1 = trun_width(flags, 0x000100);
    let w2 = w1 + trun_width(flags, 0x000200);
    let w3 = w2 + trun_width(flags, 0x000400);
    TrunEntry {
        duration: if trun_has(flags, 0x000100) { Some(be32(c, 0)) } else { None },
        size: if trun_has(flags, 0x000200) { Some(be32(c, w1)) } else { None },
        flags: if trun_has(flags, 0x000400) { Some(SampleFlags(be32(c, w2))) } else { None },
        composition_time_offset: if trun_has(flags, 0x000800) {
            Some(cto_of(version, be32(c, w3)))
        } else {
            None
        },
    }
}

/// The record of sample `i` among `samples`, records of `s` bytes each.
pub open spec fn trun_record(samples: Seq<u8>, s: int, i: int) -> Seq<u8> {
    samples.subrange(i * s, i * s + s)
}

/// Record `i` of `n` records of `s` bytes each lies within them.
pub proof fn lemma_record_bounds(i: int, n: int, s: int)
    requires
        0 <= i < n,
        0 <= s,
    ensures
        0 <= i * s,
        i * s + s <= n * s,
        (i + 1) * s == i * s + s,
{
    assert(0 <= i * s) by (nonlinear_arith)
        requires
            0 <= i,
            0 <= s,
    ;
    assert(i * s + s <= n * s) by (nonlinear_arith)
        requires
            0 <= i < n,
            0 <= s,
    ;
    assert((i + 1) * s == i * s + s) by (nonlinear_arith);
}

/// Reads the sample record `chunk`.
fn read_entry(chunk: &[u8], flags: BoxFlags, version: u8) -> (r: TrunEntry)
    requires
        chunk@.len() == spec_sample_data_size(flags.0),
    ensures
        r == trun_entry_of(flags.0, version, chunk@),
{
    let ghost f = flags.0;
    let mut cur = ReadCursor::new(chunk);
    let duration = if flags.contains(BoxFlags::SAMPLE_DURATION_PRESENT) {
        match cur.read_u32_be() {
            Ok(v) => Some(v),
            Err(_) => None,
        }
    } else {
        None
    };
    assert(cur.pos == trun_width(f, 0x000100));
    let size = if flags.contains(BoxFlags::SAMPLE_SIZE_PRESENT) {
        match cur.read_u32_be() {
            Ok(v) => Some(v),
            Err(_) => None,
        }
    } else {
        None
    };
    assert(cur.pos == trun_width(f, 0x000100) + trun_width(f, 0x000200));
    let sflags = if flags.contains(BoxFlags::SAMPLE_FLAGS_PRESENT) {
        match cur.read_u32_be() {
            Ok(v) => Some(SampleFlags::from_raw(v)),
            Err(_) => None,
        }
    } else {
        None
    };
    let cto = if flags.contains(BoxFlags::SAMPLE_COMPOSITION_TIME_OFFSETS_PRESENT) {
        if version == 0 {
            match cur.read_u32_be() {
                Ok(v) => Some(v as i64),
                Err(_) => None,
            }
        } else {
            match cur.read_i32_be() {
                Ok(v) => Some(v as i64),
                Err(_) => None,
            }
        }
    } else {
        None
    };
    TrunEntry { duration, size, flags: sflags, composition_time_offset: cto }
}

/// Track Run Box (`trun`) over the bytes of its sample records.
#[derive(Debug)]
pub struct TrunBoxView<'a> {
    /// Box version: 0 or 1, which decides whether composition time offsets are signed.
    pub version: u8,
    /// Box flags: which optional fields are present.
    pub flags: TrunFlags,
    /// Number of samples in the run.
    pub sample_count: u32,
    /// Offset of the run's data from the base data offset, when present.
    pub data_offset: Option<i32>,
    /// Flags of the first sample, overriding its record's, when present.
    pub first_sample_flags: Option<SampleFlags>,
    /// The sample records.
    pub samples: &'a [u8],
}

/// The number of whole records of `s` bytes in `len` bytes (none when `s` is 0).
pub open spec fn trun_entry_count(s: int, len: int) -> int {
    if s == 0 {
        0
    } else {
        len / s
    }
}

impl<'a> TrunBoxView<'a> {
    /// The samples of the run, one per whole record.
    pub fn entries(&self) -> (r: Vec<TrunEntry>)
        ensures
            r@.len() == trun_entry_count(spec_sample_data_size(self.flags.0), self.samples@.len() as int),
            forall|i: int| 0 <= i < r@.len() ==> #[trigger] r@[i] == trun_entry_of(self.flags.0, self.version,
                trun_record(self.samples@, spec_sample_data_size(self.flags.0), i)),
    {
        let s = sample_data_size(self.flags);
        let mut out: Vec<TrunEntry> = Vec::new();
        if s == 0 {
            return out;
        }
        let len = self.samples.len();
        let mut pos: usize = 0;
        let ghost mut i: int = 0;
        while len - pos >= s
            invariant
                s == spec_sample_data_size(self.flags.0),
                0 < s <= 16,
                len == self.samples@.len(),
                pos <= len,
                0 <= i,
                pos == i * s,
                out@.len() == i,
                forall|j: int| 0 <= j < i ==> #[trigger] out@[j] == trun_entry_of(self.flags.0, self.version,
                    trun_record(self.samples@, s as int, j)),
            decreases len - pos,
        {
            let chunk = &self.samples[pos..pos + s];
            let e = read_entry(chunk, self.flags, self.version);
            assert(chunk@ =~= trun_record(self.samples@, s as int, i));
            out.push(e);
            proof {
                assert((i + 1) * s == i * s + s) by (nonlinear_arith);
                i = i + 1;
            }
            pos = pos + s;
        }
        assert(i == (len as int) / (s as int)) by (nonlinear_arith)
            requires
                pos == i * s,
                pos <= len,
                len - pos < s,
                0 <= i,
                s > 0,
        ;
        out
    }
}

/// Whether the `trun` payload `b` is accepted: all fixed fields present,
/// version 0 or 1, and exactly `sample_count` records after the fixed fields.
pub open spec fn trun_accepts(b: Seq<u8>) -> bool {
    let f = be24(b, 1);
    &&& b.len() >= 8
    &&& b[0] <= 1
    &&& b.len() >= trun_head_len(f)
    &&& b.len() - trun_head_len(f) == be32(b, 4) * spec_sample_data_size(f)
}

/// The data offset field of the `trun` payload `b`, when its flag is set.
pub open spec fn trun_data_offset_of(b: Seq<u8>) -> Option<i32> {
    if trun_has(be24(b, 1), 0x000001) {
        Some(be32(b, 8) as i32)
    } else {
        None
    }
}

/// The first sample's flags of the `trun` payload `b`, when its flag is set.
pub open spec fn trun_first_flags_of(b: Seq<u8>) -> Option<SampleFlags> {
    let f = be24(b, 1);
    if trun_has(f, 0x000004) {
        Some(SampleFlags(be32(b, 8 + trun_width(f, 0x000001))))
    } else {
        None
    }
}

impl BoxCodec for TrunBoxView<'_> {
    open spec fn spec_boxtype(&self) -> BoxType {
        BoxType::TRUN
    }

    fn boxtype(&self) -> (r: BoxType) {
        BoxType::TRUN
    }
}

impl<'de> BoxDecode<'de> for TrunBoxView<'de> {
    open spec fn spec_accepts(bytes: Seq<u8>) -> bool {
        trun_accepts(bytes)
    }

    open spec fn spec_decodes(bytes: Seq<u8>, v: Self) -> bool {
        &&& v.version == bytes[0]
        &&& v.flags.0 == be24(bytes, 1)
        &&& v.sample_count == be32(bytes, 4)
        &&& v.data_offset == trun_data_offset_of(bytes)
        &&& v.first_sample_flags == trun_first_flags_of(bytes)
        &&& v.samples@ == bytes.skip(trun_head_len(be24(bytes, 1)))
    }

    fn decode(bytes: &'de [u8]) -> (r: Result<Self, Error>) {
        let mut cur = ReadCursor::new(bytes);
        let version = cur.read_u8()?;
        let flags = BoxFlags(cur.read_u24_be()?);
        let ghost f = flags.0;
        if version > 1 {
            return Err(Error::in_box(
                ErrorKind::InvalidBoxVersion { reason: "trun version must be 0 or 1", got: version },
                BoxType::TRUN,
            ));
        }
        let sample_count = cur.read_u32_be()?;
        let data_offset = if flags.contains(BoxFlags::DATA_OFFSET_PRESENT) {
            Some(cur.read_i32_be()?)
        } else {
            None
        };
        let first_sample_flags = if flags.contains(BoxFlags::FIRST_SAMPLE_FLAGS_PRESENT) {
            Some(SampleFlags::from_raw(cur.read_u32_be()?))
        } else {
            None
        };
        assert(cur.pos == trun_head_len(f));
        let s = sample_data_size(flags);
        assert(sample_count as u64 * s as u64 <= 0xFFFF_FFFF * 16) by (nonlinear_arith)
            requires
                s <= 16,
        ;
        let expected: u64 = sample_count as u64 * s as u64;
        let rem = cur.remaining();
        if rem as u64 != expected {
            return Err(Error::in_box(
                ErrorKind::InvalidBoxSize { reason: "trun samples size does not match sample_count", got: rem as u64 },
                BoxType::TRUN,
            ));
        }
        let samples = cur.take(rem)?;
        assert(samples@ =~= bytes@.skip(trun_head_len(f)));
        Ok(TrunBoxView { version, flags, sample_count, data_offset, first_sample_flags, samples })
    }
}

/// The contents of an optional vector.
pub open spec fn opt_view<T>(o: Option<Vec<T>>) -> Option<Seq<T>> {
    match o {
        Some(v) => Some(v@),
        None => None,
    }
}

/// Element `i` of an optional sequence, when there is one.
pub open spec fn opt_at<T>(o: Option<Seq<T>>, i: int) -> Option<T> {
    match o {
        Some(s) => if 0 <= i < s.len() {
            Some(s[i])
        } else {
            None
        },
        None => None,
    }
}

/// The entry `e` with only the fields that `flags` marks present.
pub open spec fn trun_project(flags: u32, e: TrunEntry) -> TrunEntry {
    TrunEntry {
        duration: if trun_has(flags, 0x000100) { e.duration } else { None },
        size: if trun_has(flags, 0x000200) { e.size } else { None },
        flags: if trun_has(flags, 0x000400) { e.flags } else { None },
        composition_time_offset: if trun_has(flags, 0x000800) { e.composition_time_offset } else { None },
    }
}

/// Track Run Box (`trun`) with its samples held field by field: each
/// per-sample field is a vector, present exactly when the flags say so.
#[derive(Debug, Clone)]
pub struct TrunBox {
    version: u8,
    flags: TrunFlags,
    sample_count: u32,
    data_offset: Option<i32>,
    first_sample_flags: Option<SampleFlags>,
    sample_durations: Option<Vec<u32>>,
    sample_sizes: Option<Vec<u32>>,
    sample_flags: Option<Vec<SampleFlags>>,
    sample_composition_time_offsets: Option<Vec<i64>>,
}

impl TrunBox {
    /// The box version.
    pub closed spec fn spec_version(&self) -> u8 {
        self.version
    }

    /// The box flags.
    pub closed spec fn spec_flags(&self) -> u32 {
        self.flags.0
    }

    /// The number of samples.
    pub closed spec fn spec_count(&self) -> u32 {
        self.sample_count
    }

    /// The data offset.
    pub closed spec fn spec_data_offset(&self) -> Option<i32> {
        self.data_offset
    }

    /// The first sample's flags.
    pub closed spec fn spec_first_sample_flags(&self) -> Option<SampleFlags> {
        self.first_sample_flags
    }

    /// The sample durations.
    pub closed spec fn spec_durations(&self) -> Option<Seq<u32>> {
        opt_view(self.sample_durations)
    }

    /// The sample sizes.
    pub closed spec fn spec_sizes(&self) -> Option<Seq<u32>> {
        opt_view(self.sample_sizes)
    }

    /// The sample flags.
    pub closed spec fn spec_sample_flags(&self) -> Option<Seq<SampleFlags>> {
        opt_view(self.sample_flags)
    }

    /// The composition time offsets.
    pub closed spec fn spec_ctos(&self) -> Option<Seq<i64>> {
        opt_view(self.sample_composition_time_offsets)
    }

    /// Each per-sample vector is present exactly when its flag is set, and
    /// holds one value per sample.
    pub open spec fn wf(&self) -> bool {
        let f = self.spec_flags();
        let n = self.spec_count() as int;
        &&& self.spec_durations() is Some == trun_has(f, 0x000100)
        &&& self.spec_sizes() is Some == trun_has(f, 0x000200)
        &&& self.spec_sample_flags() is Some == trun_has(f, 0x000400)
        &&& self.spec_ctos() is Some == trun_has(f, 0x000800)
        &&& (self.spec_durations() matches Some(d) ==> d.len() == n)
        &&& (self.spec_sizes() matches Some(d) ==> d.len() == n)
        &&& (self.spec_sample_flags() matches Some(d) ==> d.len() == n)
        &&& (self.spec_ctos() matches Some(d) ==> d.len() == n)
    }

    /// The entry of sample `i`: its value in each vector that holds one.
    pub open spec fn spec_entry(&self, i: int) -> TrunEntry {
        TrunEntry {
            duration: opt_at(self.spec_durations(), i),
            size: opt_at(self.spec_sizes(), i),
            flags: opt_at(self.spec_sample_flags(), i),
            composition_time_offset: opt_at(self.spec_ctos(), i),
        }
    }

    /// An empty run with the given flags; its version is 1 when composition
    /// time offsets are signed and 0 otherwise.
    pub fn new(flags: TrunFlags, signed_cto: bool) -> (r: TrunBox)
        ensures
            r.wf(),
            r.spec_version() == (if signed_cto { 1u8 } else { 0u8 }),
            r.spec_flags() == flags.0,
            r.spec_count() == 0,
            r.spec_data_offset() is None,
            r.spec_first_sample_flags() is None,
    {
        let sample_durations = if flags.contains(BoxFlags::SAMPLE_DURATION_PRESENT) {
            Some(Vec::new())
        } else {
            None
        };
        let sample_sizes = if flags.contains(BoxFlags::SAMPLE_SIZE_PRESENT) {
            Some(Vec::new())
        } else {
            None
        };
        let sample_flags = if flags.contains(BoxFlags::SAMPLE_FLAGS_PRESENT) {
            Some(Vec::new())
        } else {
            None
        };
        let sample_composition_time_offsets = if flags.contains(BoxFlags::SAMPLE_COMPOSITION_TIME_OFFSETS_PRESENT) {
            Some(Vec::new())
        } else {
            None
        };
        TrunBox {
            version: if signed_cto { 1 } else { 0 },
            flags,
            sample_count: 0,
            data_offset: None,
            first_sample_flags: None,
            sample_durations,
            sample_sizes,
            sample_flags,
            sample_composition_time_offsets,
        }
    }

    /// The box version.
    pub fn version(&self) -> (r: u8)
        ensures
            r == self.spec_version(),
    {
        self.version
    }

    /// The box flags.
    pub fn flags(&self) -> (r: TrunFlags)
        ensures
            r.0 == self.spec_flags(),
    {
        self.flags
    }

    /// The data offset, when present.
    pub fn data_offset(&self) -> (r: Option<i32>)
        ensures
            r == self.spec_data_offset(),
    {
        self.data_offset
    }

    /// Sets the data offset, and the flag that marks it present.
    pub fn set_data_offset(&mut self, offset: i32)
        ensures
            final(self).spec_data_offset() == Some(offset),
            final(self).spec_flags() == old(self).spec_flags() | 0x000001,
            final(self).spec_version() == old(self).spec_version(),
            final(self).spec_count() == old(self).spec_count(),
            final(self).spec_first_sample_flags() == old(self).spec_first_sample_flags(),
            final(self).spec_durations() == old(self).spec_durations(),
            final(self).spec_sizes() == old(self).spec_sizes(),
            final(self).spec_sample_flags() == old(self).spec_sample_flags(),
            final(self).spec_ctos() == old(self).spec_ctos(),
    {
        self.data_offset = Some(offset);
        self.flags.insert(BoxFlags::DATA_OFFSET_PRESENT);
    }

    /// The first sample's flags, when present.
    pub fn first_sample_flags(&self) -> (r: Option<SampleFlags>)
        ensures
            r == self.spec_first_sample_flags(),
    {
        self.first_sample_flags
    }

    /// Sets the first sample's flags, and the flag that marks them present.
    pub fn set_first_sample_flags(&mut self, flags: SampleFlags)
        ensures
            final(self).spec_first_sample_flags() == Some(flags),
            final(self).spec_flags() == old(self).spec_flags() | 0x000004,
            final(self).spec_version() == old(self).spec_version(),
            final(self).spec_count() == old(self).spec_count(),
            final(self).spec_data_offset() == old(self).spec_data_offset(),
            final(self).spec_durations() == old(self).spec_durations(),
            final(self).spec_sizes() == old(self).spec_sizes(),
            final(self).spec_sample_flags() == old(self).spec_sample_flags(),
            final(self).spec_ctos() == old(self).spec_ctos(),
    {
        self.first_sample_flags = Some(flags);
        self.flags.insert(BoxFlags::FIRST_SAMPLE_FLAGS_PRESENT);
    }

    /// The number of samples.
    pub fn sample_count(&self) -> (r: usize)
        ensures
            r == self.spec_count(),
    {
        self.sample_count as usize
    }

    /// The sample durations, when the run holds them.
    pub fn sample_durations(&self) -> (r: Option<&[u32]>)
        ensures
            r is Some == self.spec_durations() is Some,
            r matches Some(s) ==> Some(s@) == self.spec_durations(),
    {
        match &self.sample_durations {
            Some(v) => Some(v.as_slice()),
            None => None,
        }
    }

    /// The sample sizes, when the run holds them.
    pub fn sample_sizes(&self) -> (r: Option<&[u32]>)
        ensures
            r is Some == self.spec_sizes() is Some,
            r matches Some(s) ==> Some(s@) == self.spec_sizes(),
    {
        match &self.sample_sizes {
            Some(v) => Some(v.as_slice()),
            None => None,
        }
    }

    /// The sample flags, when the run holds them.
    pub fn sample_flags(&self) -> (r: Option<&[SampleFlags]>)
        ensures
            r is Some == self.spec_sample_flags() is Some,
            r matches Some(s) ==> Some(s@) == self.spec_sample_flags(),
    {
        match &self.sample_flags {
            Some(v) => Some(v.as_slice()),
            None => None,
        }
    }

    /// The composition time offsets, when the run holds them.
    pub fn sample_composition_time_offsets(&self) -> (r: Option<&[i64]>)
        ensures
            r is Some == self.spec_ctos() is Some,
            r matches Some(s) ==> Some(s@) == self.spec_ctos(),
    {
        match &self.sample_composition_time_offsets {
            Some(v) => Some(v.as_slice()),
            None => None,
        }
    }

    /// The entry of the sample at `index`; `None` past the last sample.
    pub fn get_entry(&self, index: usize) -> (r: Option<TrunEntry>)
        ensures
            r == (if index < self.spec_count() { Some(self.spec_entry(index as int)) } else { None::<TrunEntry> }),
    {
        if index >= self.sample_count() {
            return None;
        }
        let duration = match &self.sample_durations {
            Some(v) => if index < v.len() { Some(v[index]) } else { None },
            None => None,
        };
        let size = match &self.sample_sizes {
            Some(v) => if index < v.len() { Some(v[index]) } else { None },
            None => None,
        };
        let flags = match &self.sample_flags {
            Some(v) => if index < v.len() { Some(v[index]) } else { None },
            None => None,
        };
        let composition_time_offset = match &self.sample_composition_time_offsets {
            Some(v) => if index < v.len() { Some(v[index]) } else { None },
            None => None,
        };
        Some(TrunEntry { duration, size, flags, composition_time_offset })
    }

    /// The entries of all samples, in order.
    pub fn entries(&self) -> (r: Vec<TrunEntry>)
        ensures
            r@.len() == self.spec_count(),
            forall|i: int| 0 <= i < r@.len() ==> #[trigger] r@[i] == self.spec_entry(i),
    {
        let n = self.sample_count();
        let mut out: Vec<TrunEntry> = Vec::new();
        let mut i: usize = 0;
        while i < n
            invariant
                n == self.spec_count(),
                i <= n,
                out@.len() == i,
                forall|j: int| 0 <= j < i ==> #[trigger] out@[j] == self.spec_entry(j),
            decreases n - i,
        {
            match self.get_entry(i) {
                Some(e) => out.push(e),
                None => {},
            }
            i = i + 1;
        }
        out
    }

    /// Adds a sample. Each field that the flags mark present must be given;
    /// the others are dropped.
    pub fn push_entry(&mut self, entry: TrunEntry)
        requires
            old(self).wf(),
            old(self).spec_count() < u32::MAX,
            trun_has(old(self).spec_flags(), 0x000100) ==> entry.duration is Some,
            trun_has(old(self).spec_flags(), 0x000200) ==> entry.size is Some,
            trun_has(old(self).spec_flags(), 0x000400) ==> entry.flags is Some,
            trun_has(old(self).spec_flags(), 0x000800) ==> entry.composition_time_offset is Some,
        ensures
            final(self).wf(),
            final(self).spec_count() == old(self).spec_count() + 1,
            final(self).spec_version() == old(self).spec_version(),
            final(self).spec_flags() == old(self).spec_flags(),
            final(self).spec_data_offset() == old(self).spec_data_offset(),
            final(self).spec_first_sample_flags() == old(self).spec_first_sample_flags(),
            forall|i: int| 0 <= i < old(self).spec_count() ==> #[trigger] final(self).spec_entry(i) == old(self).spec_entry(i),
            final(self).spec_entry(old(self).spec_count() as int) == trun_project(old(self).spec_flags(), entry),
            trun_pushed(*old(self), *final(self), entry),
    {
        self.sample_count = self.sample_count + 1;
        match &mut self.sample_durations {
            Some(v) => {
                match entry.duration {
                    Some(x) => v.push(x),
                    None => {},
                }
            },
            None => {},
        }
        match &mut self.sample_sizes {
            Some(v) => {
                match entry.size {
                    Some(x) => v.push(x),
                    None => {},
                }
            },
            None => {},
        }
        match &mut self.sample_flags {
            Some(v) => {
                match entry.flags {
                    Some(x) => v.push(x),
                    None => {},
                }
            },
            None => {},
        }
        match &mut self.sample_composition_time_offsets {
            Some(v) => {
                match entry.composition_time_offset {
                    Some(x) => v.push(x),
                    None => {},
                }
            },
            None => {},
        }
    }
}

/// The optional sequence `o` with `x` added at the end when both are there.
pub open spec fn opt_push<T>(o: Option<Seq<T>>, x: Option<T>) -> Option<Seq<T>> {
    match (o, x) {
        (Some(s), Some(v)) => Some(s.push(v)),
        _ => o,
    }
}

/// Whether the run `a` is the run `b` with the sample `e` added at the end:
/// one more sample, each per-sample field that `b` holds extended by the
/// field of `e`, and everything else kept.
pub open spec fn trun_pushed(b: TrunBox, a: TrunBox, e: TrunEntry) -> bool {
    &&& a.spec_count() == b.spec_count() + 1
    &&& a.spec_version() == b.spec_version()
    &&& a.spec_flags() == b.spec_flags()
    &&& a.spec_data_offset() == b.spec_data_offset()
    &&& a.spec_first_sample_flags() == b.spec_first_sample_flags()
    &&& a.spec_durations() == opt_push(b.spec_durations(), e.duration)
    &&& a.spec_sizes() == opt_push(b.spec_sizes(), e.size)
    &&& a.spec_sample_flags() == opt_push(b.spec_sample_flags(), e.flags)
    &&& a.spec_ctos() == opt_push(b.spec_ctos(), e.composition_time_offset)
}

/// Adding a sample to any well-formed run, with each field its flags mark
/// present, keeps the run well formed, keeps every earlier sample, and makes
/// the new last sample the added one, restricted to the fields the flags mark.
pub proof fn lemma_trun_push_get(b: TrunBox, a: TrunBox, e: TrunEntry)
    requires
        b.wf(),
        trun_has(b.spec_flags(), 0x000100) ==> e.duration is Some,
        trun_has(b.spec_flags(), 0x000200) ==> e.size is Some,
        trun_has(b.spec_flags(), 0x000400) ==> e.flags is Some,
        trun_has(b.spec_flags(), 0x000800) ==> e.composition_time_offset is Some,
        trun_pushed(b, a, e),
    ensures
        a.wf(),
        forall|i: int| 0 <= i < b.spec_count() ==> #[trigger] a.spec_entry(i) == b.spec_entry(i),
        a.spec_entry(b.spec_count() as int) == trun_project(b.spec_flags(), e),
{
    assert forall|i: int| 0 <= i < b.spec_count() implies #[trigger] a.spec_entry(i) == b.spec_entry(i) by {
        if let Some(d) = b.spec_durations() { assert(d.push(e.duration->0)[i] == d[i]); }
        if let Some(d) = b.spec_sizes() { assert(d.push(e.size->0)[i] == d[i]); }
        if let Some(d) = b.spec_sample_flags() { assert(d.push(e.flags->0)[i] == d[i]); }
        if let Some(d) = b.spec_ctos() { assert(d.push(e.composition_time_offset->0)[i] == d[i]); }
    }
}

/// Building a run sample by sample: when `ts[0]` is an empty well-formed run
/// (as `TrunBox::new` gives) and each `ts[k + 1]` is `ts[k]` with the sample
/// `es[k]` added (as `push_entry` does), each sample having every field its
/// flags mark present, the last run is well formed, has the flags of the first,
/// holds exactly `es.len()` samples, and its sample `i` is `es[i]` restricted to
/// the fields the flags mark (so `get_entry(i)` gives it, and `None` past the end).
pub proof fn lemma_trun_pushes(ts: Seq<TrunBox>, es: Seq<TrunEntry>)
    requires
        ts.len() == es.len() + 1,
        ts[0].wf(),
        ts[0].spec_count() == 0,
        forall|k: int| 0 <= k < es.len() ==> trun_pushed(#[trigger] ts[k], ts[k + 1], es[k]),
        forall|k: int| 0 <= k < es.len() ==> {
            let f = ts[0].spec_flags();
            &&& trun_has(f, 0x000100) ==> (#[trigger] es[k]).duration is Some
            &&& trun_has(f, 0x000200) ==> es[k].size is Some
            &&& trun_has(f, 0x000400) ==> es[k].flags is Some
            &&& trun_has(f, 0x000800) ==> es[k].composition_time_offset is Some
        },
    ensures
        ts.last().wf(),
        ts.last().spec_flags() == ts[0].spec_flags(),
        ts.last().spec_count() == es.len(),
        forall|i: int| 0 <= i < es.len() ==> #[trigger] ts.last().spec_entry(i) == trun_project(ts[0].spec_flags(), es[i]),
    decreases es.len(),
{
    let n = es.len() as int;
    if n > 0 {
        let ts1 = ts.drop_last();
        let es1 = es.drop_last();
        assert forall|k: int| 0 <= k < es1.len() implies trun_pushed(#[trigger] ts1[k], ts1[k + 1], es1[k]) by {
            assert(trun_pushed(ts[k], ts[k + 1], es[k]));
        }
        assert forall|k: int| 0 <= k < es1.len() implies {
            let f = ts1[0].spec_flags();
            &&& trun_has(f, 0x000100) ==> (#[trigger] es1[k]).duration is Some
            &&& trun_has(f, 0x000200) ==> es1[k].size is Some
            &&& trun_has(f, 0x000400) ==> es1[k].flags is Some
            &&& trun_has(f, 0x000800) ==> es1[k].composition_time_offset is Some
        } by {
            assert(es1[k] == es[k]);
        }
        lemma_trun_pushes(ts1, es1);
        assert(ts1.last() == ts[n - 1]);
        assert(trun_pushed(ts[n - 1], ts[n], es[n - 1]));
        lemma_trun_push_get(ts[n - 1], ts[n], es[n - 1]);
        assert forall|i: int| 0 <= i < es.len() implies #[trigger] ts.last().spec_entry(i) == trun_project(ts[0].spec_flags(), es[i]) by {
            if i < n - 1 {
                assert(ts1.last().spec_entry(i) == trun_project(ts1[0].spec_flags(), es1[i]));
            }
        }
    }
}

/// The layout of a `trun` payload: version, flags and sample count, the data
/// offset at 8 when flag 0x1 is set, then the first sample's flags when flag
/// 0x4 is set; and from there one record per sample holding, in this order,
/// its duration (0x100), size (0x200), flags (0x400) and composition time
/// offset (0x800), four bytes for each field whose flag is set. The offset is
/// unsigned in version 0 and signed in version 1.
#[verifier::rlimit(40)]
pub proof fn lemma_trun_box_layout(bytes: Seq<u8>, v: TrunBox, i: int)
    requires
        TrunBox::spec_accepts(bytes),
        TrunBox::spec_decodes(bytes, v),
        0 <= i < v.spec_count(),
    ensures
        ({
            let f = be24(bytes, 1);
            let d = if BoxFlags::has(f, 0x000001) { 4int } else { 0 };
            let h = 8 + d + (if BoxFlags::has(f, 0x000004) { 4int } else { 0 });
            let w1 = if BoxFlags::has(f, 0x000100) { 4int } else { 0 };
            let w2 = w1 + (if BoxFlags::has(f, 0x000200) { 4int } else { 0 });
            let w3 = w2 + (if BoxFlags::has(f, 0x000400) { 4int } else { 0 });
            let sz = w3 + (if BoxFlags::has(f, 0x000800) { 4int } else { 0 });
            let r = h + i * sz;
            let e = v.spec_entry(i);
            &&& v.spec_version() == bytes[0]
            &&& v.spec_flags() == f
            &&& v.spec_count() == be32(bytes, 4)
            &&& v.spec_data_offset() == (if BoxFlags::has(f, 0x000001) { Some(be32(bytes, 8) as i32) } else { None::<i32> })
            &&& v.spec_first_sample_flags() == (if BoxFlags::has(f, 0x000004) {
                Some(SampleFlags(be32(bytes, 8 + d)))
            } else {
                None::<SampleFlags>
            })
            &&& e.duration == (if BoxFlags::has(f, 0x000100) { Some(be32(bytes, r)) } else { None::<u32> })
            &&& e.size == (if BoxFlags::has(f, 0x000200) { Some(be32(bytes, r + w1)) } else { None::<u32> })
            &&& e.flags == (if BoxFlags::has(f, 0x000400) { Some(SampleFlags(be32(bytes, r + w2))) } else { None::<SampleFlags> })
            &&& e.composition_time_offset == (if BoxFlags::has(f, 0x000800) {
                Some(if bytes[0] == 0 { be32(bytes, r + w3) as i64 } else { (be32(bytes, r + w3) as i32) as i64 })
            } else {
                None::<i64>
            })
        }),
{
    let f = be24(bytes, 1);
    let h = trun_head_len(f);
    let sz = spec_sample_data_size(f);
    let n = v.spec_count() as int;
    lemma_record_bounds(i, n, sz);
    let c = trun_record(bytes.skip(h), sz, i);
    assert(v.spec_entry(i) == trun_entry_of(f, bytes[0], c));
    assert forall|k: int| 0 <= k < sz implies #[trigger] c[k] == bytes[h + i * sz + k] by {}
    let w1 = trun_width(f, 0x000100);
    let w2 = w1 + trun_width(f, 0x000200);
    let w3 = w2 + trun_width(f, 0x000400);
    if trun_has(f, 0x000100) {
        assert(c[0] == bytes[h + i * sz] && c[1] == bytes[h + i * sz + 1] && c[2] == bytes[h + i * sz + 2] && c[3] == bytes[h + i * sz + 3]);
    }
    if trun_has(f, 0x000200) {
        assert(c[w1] == bytes[h + i * sz + w1] && c[w1 + 1] == bytes[h + i * sz + w1 + 1] && c[w1 + 2] == bytes[h + i * sz + w1 + 2] && c[w1 + 3] == bytes[h + i * sz + w1 + 3]);
    }
    if trun_has(f, 0x000400) {
        assert(c[w2] == bytes[h + i * sz + w2] && c[w2 + 1] == bytes[h + i * sz + w2 + 1] && c[w2 + 2] == bytes[h + i * sz + w2 + 2] && c[w2 + 3] == bytes[h + i * sz + w2 + 3]);
    }
    if trun_has(f, 0x000800) {
        assert(c[w3] == bytes[h + i * sz + w3] && c[w3 + 1] == bytes[h + i * sz + w3 + 1] && c[w3 + 2] == bytes[h + i * sz + w3 + 2] && c[w3 + 3] == bytes[h + i * sz + w3 + 3]);
    }
}

/// Whether `n` records of `s` bytes each make up the records of a view:
/// always when the records are empty, else when there are exactly `n` of them.
pub open spec fn trun_records_fit(s: int, len: int, n: int) -> bool {
    s == 0 || len == n * s
}

/// The entry that the per-sample vectors gathered so far give for sample `j`.
pub open spec fn parts_entry(
    d: Option<Vec<u32>>,
    z: Option<Vec<u32>>,
    fl: Option<Vec<SampleFlags>>,
    c: Option<Vec<i64>>,
    j: int,
) -> TrunEntry {
    TrunEntry {
        duration: opt_at(opt_view(d), j),
        size: opt_at(opt_view(z), j),
        flags: opt_at(opt_view(fl), j),
        composition_time_offset: opt_at(opt_view(c), j),
    }
}

/// The length of an optional vector, or `n` when it is absent.
pub open spec fn opt_len_is<T>(o: Option<Vec<T>>, n: int) -> bool {
    o matches Some(v) ==> v@.len() == n
}

impl TrunBox {
    /// The owned box of a view: its samples read from the records. An error
    /// when the records are not exactly `sample_count` of them (which a view
    /// that was decoded never has).
    pub fn try_from(view: &TrunBoxView<'_>) -> (r: Result<TrunBox, Error>)
        ensures
            (r is Ok) == trun_records_fit(spec_sample_data_size(view.flags.0), view.samples@.len() as int, view.sample_count as int),
            r matches Ok(v) ==> {
                &&& v.wf()
                &&& v.spec_version() == view.version
                &&& v.spec_flags() == view.flags.0
                &&& v.spec_count() == view.sample_count
                &&& v.spec_data_offset() == view.data_offset
                &&& v.spec_first_sample_flags() == view.first_sample_flags
                &&& forall|i: int| 0 <= i < view.sample_count ==> #[trigger] v.spec_entry(i) == trun_entry_of(view.flags.0, view.version,
                    trun_record(view.samples@, spec_sample_data_size(view.flags.0), i))
            },
    {
        let flags = view.flags;
        let ghost f = flags.0;
        let s = sample_data_size(flags);
        let mut sample_durations: Option<Vec<u32>> = if flags.contains(BoxFlags::SAMPLE_DURATION_PRESENT) {
            Some(Vec::new())
        } else {
            None
        };
        let mut sample_sizes: Option<Vec<u32>> = if flags.contains(BoxFlags::SAMPLE_SIZE_PRESENT) {
            Some(Vec::new())
        } else {
            None
        };
        let mut sample_flags: Option<Vec<SampleFlags>> = if flags.contains(BoxFlags::SAMPLE_FLAGS_PRESENT) {
            Some(Vec::new())
        } else {
            None
        };
        let mut sample_ctos: Option<Vec<i64>> = if flags.contains(BoxFlags::SAMPLE_COMPOSITION_TIME_OFFSETS_PRESENT) {
            Some(Vec::new())
        } else {
            None
        };
        let count = view.sample_count;
        if s > 0 {
            assert(count as u64 * s as u64 <= 0xFFFF_FFFF * 16) by (nonlinear_arith)
                requires
                    s <= 16,
            ;
            if view.samples.len() as u64 != count as u64 * s as u64 {
                return Err(Error::in_box(
                    ErrorKind::InvalidBoxSize { reason: "trun samples size does not match sample_count", got: view.samples.len() as u64 },
                    BoxType::TRUN,
                ));
            }
            let n = count as usize;
            let len = view.samples.len();
            let mut i: usize = 0;
            let mut pos: usize = 0;
            while i < n
                invariant
                    len == view.samples@.len(),
                    f == view.flags.0,
                    flags == view.flags,
                    s == spec_sample_data_size(f),
                    0 < s <= 16,
                    n == count,
                    count == view.sample_count,
                    view.samples@.len() == n * s,
                    i <= n,
                    pos == i * s,
                    sample_durations is Some == trun_has(f, 0x000100),
                    sample_sizes is Some == trun_has(f, 0x000200),
                    sample_flags is Some == trun_has(f, 0x000400),
                    sample_ctos is Some == trun_has(f, 0x000800),
                    opt_len_is(sample_durations, i as int),
                    opt_len_is(sample_sizes, i as int),
                    opt_len_is(sample_flags, i as int),
                    opt_len_is(sample_ctos, i as int),
                    forall|j: int| 0 <= j < i ==> #[trigger] parts_entry(sample_durations, sample_sizes, sample_flags, sample_ctos, j)
                        == trun_entry_of(f, view.version, trun_record(view.samples@, s as int, j)),
                decreases n - i,
            {
                proof {
                    lemma_record_bounds(i as int, n as int, s as int);
                }
                assert(pos + s <= len);
                let chunk = &view.samples[pos..pos + s];
                let e = read_entry(chunk, flags, view.version);
                assert(chunk@ =~= trun_record(view.samples@, s as int, i as int));
                let ghost d0 = sample_durations;
                let ghost z0 = sample_sizes;
                let ghost f0 = sample_flags;
                let ghost c0 = sample_ctos;
                match &mut sample_durations {
                    Some(v) => {
                        match e.duration {
                            Some(x) => v.push(x),
                            None => {},
                        }
                    },
                    None => {},
                }
                match &mut sample_sizes {
                    Some(v) => {
                        match e.size {
                            Some(x) => v.push(x),
                            None => {},
                        }
                    },
                    None => {},
                }
                match &mut sample_flags {
                    Some(v) => {
                        match e.flags {
                            Some(x) => v.push(x),
                            None => {},
                        }
                    },
                    None => {},
                }
                match &mut sample_ctos {
                    Some(v) => {
                        match e.composition_time_offset {
                            Some(x) => v.push(x),
                            None => {},
                        }
                    },
                    None => {},
                }
                proof {
                    assert forall|j: int| 0 <= j < i + 1 implies #[trigger] parts_entry(sample_durations, sample_sizes, sample_flags, sample_ctos, j)
                        == trun_entry_of(f, view.version, trun_record(view.samples@, s as int, j)) by {
                        if j < i {
                            assert(parts_entry(sample_durations, sample_sizes, sample_flags, sample_ctos, j) == parts_entry(d0, z0, f0, c0, j));
                        }
                    }
                }
                i = i + 1;
                pos = pos + s;
            }
        }
        let r = TrunBox {
            version: view.version,
            flags,
            sample_count: count,
            data_offset: view.data_offset,
            first_sample_flags: view.first_sample_flags,
            sample_durations,
            sample_sizes,
            sample_flags,
            sample_composition_time_offsets: sample_ctos,
        };
        assert forall|i: int| 0 <= i < view.sample_count implies #[trigger] r.spec_entry(i) == trun_entry_of(view.flags.0, view.version,
            trun_record(view.samples@, spec_sample_data_size(view.flags.0), i)) by {
            assert(r.spec_entry(i) == parts_entry(r.sample_durations, r.sample_sizes, r.sample_flags, r.sample_composition_time_offsets, i));
        }
        Ok(r)
    }
}

impl BoxCodec for TrunBox {
    open spec fn spec_boxtype(&self) -> BoxType {
        BoxType::TRUN
    }

    fn boxtype(&self) -> (r: BoxType) {
        BoxType::TRUN
    }
}

impl<'de> BoxDecode<'de> for TrunBox {
    open spec fn spec_accepts(bytes: Seq<u8>) -> bool {
        trun_accepts(bytes)
    }

    open spec fn spec_decodes(bytes: Seq<u8>, v: Self) -> bool {
        let f = be24(bytes, 1);
        &&& v.wf()
        &&& v.spec_version() == bytes[0]
        &&& v.spec_flags() == f
        &&& v.spec_count() == be32(bytes, 4)
        &&& v.spec_data_offset() == trun_data_offset_of(bytes)
        &&& v.spec_first_sample_flags() == trun_first_flags_of(bytes)
        &&& forall|i: int| 0 <= i < v.spec_count() ==> #[trigger] v.spec_entry(i) == trun_entry_of(f, bytes[0],
            trun_record(bytes.skip(trun_head_len(f)), spec_sample_data_size(f), i))
    }

    fn decode(bytes: &'de [u8]) -> (r: Result<Self, Error>) {
        let view = TrunBoxView::decode(bytes)?;
        TrunBox::try_from(&view)
    }
}

/// The four bytes of a field that `present`, or nothing.
pub open spec fn field_bytes(present: bool, x: u32) -> Seq<u8> {
    if present {
        u32_bytes(x)
    } else {
        Seq::empty()
    }
}

/// The record that sample `i` of `v` is written as: each field the flags
/// mark present, in order.
pub open spec fn trun_sample_bytes(v: TrunBox, i: int) -> Seq<u8> {
    let f = v.spec_flags();
    let e = v.spec_entry(i);
    field_bytes(trun_has(f, 0x000100), e.duration->0)
        + field_bytes(trun_has(f, 0x000200), e.size->0)
        + field_bytes(trun_has(f, 0x000400), (e.flags->0).0)
        + field_bytes(trun_has(f, 0x000800), cto_raw(v.spec_version(), e.composition_time_offset->0))
}

/// The records of the first `n` samples of `v`.
pub open spec fn trun_samples_bytes(v: TrunBox, n: int) -> Seq<u8>
    decreases n,
{
    if n <= 0 {
        Seq::empty()
    } else {
        trun_samples_bytes(v, n - 1) + trun_sample_bytes(v, n - 1)
    }
}

/// Whether sample `i` of `v` has every field the flags mark present, with
/// its composition time offset in the range of its version.
pub open spec fn trun_sample_ok(v: TrunBox, i: int) -> bool {
    let f = v.spec_flags();
    let e = v.spec_entry(i);
    &&& trun_has(f, 0x000100) ==> e.duration is Some
    &&& trun_has(f, 0x000200) ==> e.size is Some
    &&& trun_has(f, 0x000400) ==> e.flags is Some
    &&& trun_has(f, 0x000800) ==> (e.composition_time_offset matches Some(c) && cto_fits(v.spec_version(), c))
}

/// The fixed fields of `v` as written: version, flags, sample count, then
/// the data offset and the first sample's flags when their flags are set.
pub open spec fn trun_head_bytes(v: TrunBox) -> Seq<u8> {
    let f = v.spec_flags();
    seq![v.spec_version()] + u24_bytes(f) + u32_bytes(v.spec_count())
        + field_bytes(trun_has(f, 0x000001), (v.spec_data_offset()->0) as u32)
        + field_bytes(trun_has(f, 0x000004), (v.spec_first_sample_flags()->0).0)
}

/// Each record is as long as the flags say.
pub proof fn lemma_sample_bytes_len(v: TrunBox, i: int)
    ensures
        trun_sample_bytes(v, i).len() == spec_sample_data_size(v.spec_flags()),
{
}

/// The records of `n` samples take `n` times the record size.
pub proof fn lemma_samples_bytes_len(v: TrunBox, n: int)
    requires
        0 <= n,
    ensures
        trun_samples_bytes(v, n).len() == n * spec_sample_data_size(v.spec_flags()),
    decreases n,
{
    let s = spec_sample_data_size(v.spec_flags());
    if n > 0 {
        lemma_samples_bytes_len(v, n - 1);
        lemma_sample_bytes_len(v, n - 1);
        assert(trun_samples_bytes(v, n) == trun_samples_bytes(v, n - 1) + trun_sample_bytes(v, n - 1));
        assert((n - 1) * s + s == n * s) by (nonlinear_arith);
    } else {
        assert(trun_samples_bytes(v, n) =~= Seq::<u8>::empty());
    }
}

/// The writing of sample `i` of `v` at `p` in `bytes`, after the bytes `acc`.
fn write_field(bytes: &mut [u8], p: usize, present: bool, x: Option<u32>, Ghost(s0): Ghost<Seq<u8>>, Ghost(acc): Ghost<Seq<u8>>) -> (r: Result<usize, Error>)
    requires
        old(bytes)@ == splice(s0, 0, acc),
        p == acc.len(),
        p <= s0.len(),
        old(bytes)@.len() == s0.len(),
    ensures
        final(bytes)@.len() == s0.len(),
        (r is Ok) == (!present || (x is Some && p + 4 <= s0.len())),
        r matches Ok(q) ==> q == p + field_bytes(present, x->0).len()
            && final(bytes)@ == splice(s0, 0, acc + field_bytes(present, x->0)),
{
    if !present {
        assert(acc + field_bytes(present, x->0) =~= acc);
        return Ok(p);
    }
    match x {
        Some(v) => {
            let q = put_u32(bytes, p, v)?;
            proof {
                lemma_splice_concat(s0, 0, acc, u32_bytes(v));
            }
            Ok(q)
        },
        None => Err(Error::in_box(
            ErrorKind::InvalidBoxField { field: "sample", reason: "missing field for sample" },
            BoxType::TRUN,
        )),
    }
}

impl TrunBox {
    /// Writes the record of sample `i` at `p`, after the bytes `acc`: an error
    /// when a field the flags mark present is missing, a composition time
    /// offset is out of the range of the version, or the buffer is too short.
    #[verifier::spinoff_prover]
    #[verifier::rlimit(60)]
    fn write_sample(&self, bytes: &mut [u8], p: usize, i: usize, Ghost(s0): Ghost<Seq<u8>>, Ghost(acc): Ghost<Seq<u8>>) -> (r: Result<usize, Error>)
        requires
            old(bytes)@ == splice(s0, 0, acc),
            p == acc.len(),
            p <= s0.len(),
            old(bytes)@.len() == s0.len(),
            i < self.spec_count(),
        ensures
            final(bytes)@.len() == s0.len(),
            (r is Ok) == (trun_sample_ok(*self, i as int) && p + spec_sample_data_size(self.spec_flags()) <= s0.len()),
            r matches Ok(q) ==> q == p + spec_sample_data_size(self.spec_flags())
                && final(bytes)@ == splice(s0, 0, acc + trun_sample_bytes(*self, i as int)),
    {
        let ghost f = self.flags.0;
        let e = match self.get_entry(i) {
            Some(e) => e,
            None => {
                return Err(Error::in_box(
                    ErrorKind::InvalidBoxField { field: "sample", reason: "missing sample" },
                    BoxType::TRUN,
                ));
            },
        };
        let fl = match e.flags {
            Some(x) => Some(x.0),
            None => None,
        };
        let c: Option<u32> = match e.composition_time_offset {
            Some(x) => {
                if self.version == 0 {
                    if 0 <= x && x <= 0xFFFF_FFFF {
                        Some(x as u32)
                    } else {
                        None
                    }
                } else {
                    if -0x8000_0000 <= x && x <= 0x7FFF_FFFF {
                        Some((x as i32) as u32)
                    } else {
                        None
                    }
                }
            },
            None => None,
        };
        let p1 = write_field(bytes, p, self.flags.contains(BoxFlags::SAMPLE_DURATION_PRESENT), e.duration, Ghost(s0), Ghost(acc))?;
        let ghost acc1 = acc + field_bytes(trun_has(f, 0x000100), e.duration->0);
        let p2 = write_field(bytes, p1, self.flags.contains(BoxFlags::SAMPLE_SIZE_PRESENT), e.size, Ghost(s0), Ghost(acc1))?;
        let ghost acc2 = acc1 + field_bytes(trun_has(f, 0x000200), e.size->0);
        let p3 = write_field(bytes, p2, self.flags.contains(BoxFlags::SAMPLE_FLAGS_PRESENT), fl, Ghost(s0), Ghost(acc2))?;
        let ghost acc3 = acc2 + field_bytes(trun_has(f, 0x000400), fl->0);
        let p4 = write_field(bytes, p3, self.flags.contains(BoxFlags::SAMPLE_COMPOSITION_TIME_OFFSETS_PRESENT), c, Ghost(s0), Ghost(acc3))?;
        proof {
            assert(acc3 + field_bytes(trun_has(f, 0x000800), c->0) =~= acc + trun_sample_bytes(*self, i as int));
        }
        Ok(p4)
    }
}

impl BoxEncode for TrunBox {
    open spec fn spec_encode(&self) -> Seq<u8> {
        trun_head_bytes(*self) + trun_samples_bytes(*self, self.spec_count() as int)
    }

    open spec fn spec_encodable(&self) -> bool {
        let f = self.spec_flags();
        &&& trun_has(f, 0x000001) ==> self.spec_data_offset() is Some
        &&& trun_has(f, 0x000004) ==> self.spec_first_sample_flags() is Some
        &&& forall|i: int| 0 <= i < self.spec_count() ==> #[trigger] trun_sample_ok(*self, i)
        &&& self.spec_encode().len() <= usize::MAX
    }

    fn encoded_len(&self) -> (r: usize) {
        let mut head: u64 = 8;
        if self.flags.contains(BoxFlags::DATA_OFFSET_PRESENT) {
            head = head + 4;
        }
        if self.flags.contains(BoxFlags::FIRST_SAMPLE_FLAGS_PRESENT) {
            head = head + 4;
        }
        let s = sample_data_size(self.flags);
        assert(self.sample_count as u64 * s as u64 <= 0xFFFF_FFFF * 16) by (nonlinear_arith)
            requires
                s <= 16,
        ;
        let total: u64 = head + self.sample_count as u64 * s as u64;
        proof {
            lemma_samples_bytes_len(*self, self.spec_count() as int);
        }
        if total > usize::MAX as u64 {
            return usize::MAX;
        }
        total as usize
    }

    fn encode_into(&self, bytes: &mut [u8]) -> (r: Result<usize, Error>) {
        let ghost s0 = bytes@;
        let ghost f = self.flags.0;
        let ghost n = self.spec_count() as int;
        let ghost sz = spec_sample_data_size(f);
        proof {
            lemma_samples_bytes_len(*self, n);
        }
        let p = put_u8(bytes, 0, self.version)?;
        let p = put_u24(bytes, p, self.flags.0)?;
        proof {
            lemma_splice_concat(s0, 0, seq![self.version], u24_bytes(f));
        }
        let p = put_u32(bytes, p, self.sample_count)?;
        let ghost acc = seq![self.version] + u24_bytes(f);
        proof {
            lemma_splice_concat(s0, 0, acc, u32_bytes(self.sample_count));
        }
        let ghost acc = acc + u32_bytes(self.sample_count);
        let d = match self.data_offset {
            Some(x) => Some(x as u32),
            None => None,
        };
        let p = write_field(bytes, p, self.flags.contains(BoxFlags::DATA_OFFSET_PRESENT), d, Ghost(s0), Ghost(acc))?;
        let ghost acc = acc + field_bytes(trun_has(f, 0x000001), d->0);
        let fs = match self.first_sample_flags {
            Some(x) => Some(x.0),
            None => None,
        };
        let p = write_field(bytes, p, self.flags.contains(BoxFlags::FIRST_SAMPLE_FLAGS_PRESENT), fs, Ghost(s0), Ghost(acc))?;
        let ghost acc = acc + field_bytes(trun_has(f, 0x000004), fs->0);
        assert(acc == trun_head_bytes(*self));
        let count = self.sample_count();
        let mut i: usize = 0;
        let mut p = p;
        while i < count
            invariant
                s0 == old(bytes)@,
                f == self.flags.0,
                count == self.spec_count(),
                n == count,
                sz == spec_sample_data_size(f),
                trun_samples_bytes(*self, n).len() == n * sz,
                i <= count,
                bytes@.len() == s0.len(),
                p == trun_head_bytes(*self).len() + trun_samples_bytes(*self, i as int).len(),
                p <= s0.len(),
                bytes@ == splice(s0, 0, trun_head_bytes(*self) + trun_samples_bytes(*self, i as int)),
                forall|j: int| 0 <= j < i ==> #[trigger] trun_sample_ok(*self, j),
            decreases count - i,
        {
            let ghost acc = trun_head_bytes(*self) + trun_samples_bytes(*self, i as int);
            proof {
                lemma_samples_bytes_len(*self, i as int);
                lemma_record_bounds(i as int, n, sz);
            }
            let p4 = self.write_sample(bytes, p, i, Ghost(s0), Ghost(acc))?;
            proof {
                assert(acc + trun_sample_bytes(*self, i as int) =~= trun_head_bytes(*self) + trun_samples_bytes(*self, i + 1));
            }
            p = p4;
            i = i + 1;
        }
        assert(trun_head_bytes(*self) + trun_samples_bytes(*self, n) == self.spec_encode());
        Ok(p)
    }
}

/// A four-byte field read back from between the bytes before and after it.
proof fn lemma_field_at(a: Seq<u8>, x: u32, b: Seq<u8>, s: Seq<u8>)
    requires
        s == a + u32_bytes(x) + b,
    ensures
        be32(s, a.len() as int) == x,
{
    lemma_be32_at(a, x, b);
}

/// A composition time offset in range of its version comes back from its raw field.
proof fn lemma_cto_roundtrip(version: u8, c: i64)
    requires
        version <= 1,
        cto_fits(version, c),
    ensures
        cto_of(version, cto_raw(version, c)) == c,
{
    if version == 0 {
        assert((c as u32) as i64 == c) by (bit_vector)
            requires
                0 <= c <= 0xFFFF_FFFF,
        ;
    } else {
        assert(((c as i32) as u32) as i32 as i64 == c) by (bit_vector)
            requires
                -0x8000_0000 <= c <= 0x7FFF_FFFF,
        ;
    }
}

/// The record that a complete sample is written as reads back as that sample.
#[verifier::rlimit(40)]
proof fn lemma_entry_roundtrip(v: TrunBox, i: int)
    requires
        v.wf(),
        0 <= i < v.spec_count(),
        v.spec_version() <= 1,
        trun_sample_ok(v, i),
    ensures
        trun_entry_of(v.spec_flags(), v.spec_version(), trun_sample_bytes(v, i)) == v.spec_entry(i),
{
    let f = v.spec_flags();
    let e = v.spec_entry(i);
    let a = field_bytes(trun_has(f, 0x000100), e.duration->0);
    let b = field_bytes(trun_has(f, 0x000200), e.size->0);
    let c = field_bytes(trun_has(f, 0x000400), (e.flags->0).0);
    let d = field_bytes(trun_has(f, 0x000800), cto_raw(v.spec_version(), e.composition_time_offset->0));
    let sb = trun_sample_bytes(v, i);
    assert(sb == a + b + c + d);
    let r = trun_entry_of(f, v.spec_version(), sb);
    assert(r.duration == e.duration) by {
        if trun_has(f, 0x000100) {
            assert(sb =~= Seq::<u8>::empty() + u32_bytes(e.duration->0) + (b + c + d));
            lemma_field_at(Seq::empty(), e.duration->0, b + c + d, sb);
        }
    }
    assert(r.size == e.size) by {
        if trun_has(f, 0x000200) {
            assert(sb =~= a + u32_bytes(e.size->0) + (c + d));
            lemma_field_at(a, e.size->0, c + d, sb);
        }
    }
    assert(r.flags == e.flags) by {
        if trun_has(f, 0x000400) {
            assert(sb =~= (a + b) + u32_bytes((e.flags->0).0) + d);
            lemma_field_at(a + b, (e.flags->0).0, d, sb);
        }
    }
    assert(r.composition_time_offset == e.composition_time_offset) by {
        if trun_has(f, 0x000800) {
            let x = e.composition_time_offset->0;
            assert(sb =~= (a + b + c) + u32_bytes(cto_raw(v.spec_version(), x)) + Seq::<u8>::empty());
            lemma_field_at(a + b + c, cto_raw(v.spec_version(), x), Seq::empty(), sb);
            lemma_cto_roundtrip(v.spec_version(), x);
        }
    }
}

/// Record `i` of the records of the first `n` samples is the record of sample `i`.
proof fn lemma_record_of(v: TrunBox, n: int, i: int)
    requires
        0 <= i < n,
    ensures
        trun_record(trun_samples_bytes(v, n), spec_sample_data_size(v.spec_flags()), i) == trun_sample_bytes(v, i),
    decreases n,
{
    let sz = spec_sample_data_size(v.spec_flags());
    lemma_samples_bytes_len(v, n - 1);
    lemma_sample_bytes_len(v, n - 1);
    lemma_record_bounds(i, n, sz);
    let big = trun_samples_bytes(v, n);
    let small = trun_samples_bytes(v, n - 1);
    assert(big == small + trun_sample_bytes(v, n - 1));
    if i < n - 1 {
        lemma_record_of(v, n - 1, i);
        lemma_record_bounds(i, n - 1, sz);
        assert(trun_record(big, sz, i) =~= trun_record(small, sz, i));
    } else {
        assert(trun_record(big, sz, i) =~= trun_sample_bytes(v, n - 1));
    }
}

/// Decoding what a well-formed run encodes to gives it back: version, flags,
/// sample count, data offset, first sample flags and every per-sample vector.
pub proof fn lemma_trun_roundtrip(v: TrunBox, w: TrunBox)
    requires
        v.wf(),
        v.spec_encodable(),
        v.spec_flags() < 0x100_0000,
        v.spec_version() <= 1,
        v.spec_data_offset() is Some == trun_has(v.spec_flags(), 0x000001),
        v.spec_first_sample_flags() is Some == trun_has(v.spec_flags(), 0x000004),
        TrunBox::spec_decodes(v.spec_encode(), w),
    ensures
        TrunBox::spec_accepts(v.spec_encode()),
        w.spec_version() == v.spec_version(),
        w.spec_flags() == v.spec_flags(),
        w.spec_count() == v.spec_count(),
        w.spec_data_offset() == v.spec_data_offset(),
        w.spec_first_sample_flags() == v.spec_first_sample_flags(),
        w.spec_durations() == v.spec_durations(),
        w.spec_sizes() == v.spec_sizes(),
        w.spec_sample_flags() == v.spec_sample_flags(),
        w.spec_ctos() == v.spec_ctos(),
{
    let f = v.spec_flags();
    let n = v.spec_count() as int;
    let sz = spec_sample_data_size(f);
    let e = v.spec_encode();
    let h = trun_head_bytes(v);
    let samples = trun_samples_bytes(v, n);
    lemma_samples_bytes_len(v, n);
    assert(e == h + samples);
    assert(h.len() == trun_head_len(f));
    assert(e[0] == v.spec_version());
    assert(be24(e, 1) == f) by {
        assert(e =~= seq![v.spec_version()] + u24_bytes(f) + e.skip(4));
        lemma_be24_at(seq![v.spec_version()], f, e.skip(4));
    }
    assert(be32(e, 4) == v.spec_count()) by {
        assert(e =~= (seq![v.spec_version()] + u24_bytes(f)) + u32_bytes(v.spec_count()) + e.skip(8));
        lemma_be32_at(seq![v.spec_version()] + u24_bytes(f), v.spec_count(), e.skip(8));
    }
    let h8 = seq![v.spec_version()] + u24_bytes(f) + u32_bytes(v.spec_count());
    if trun_has(f, 0x000001) {
        let x = v.spec_data_offset()->0;
        assert(e =~= h8 + u32_bytes(x as u32) + e.skip(12));
        lemma_be32_at(h8, x as u32, e.skip(12));
        lemma_sign_casts(0, 0, x, 0, 0, 0, 0, 0);
    }
    if trun_has(f, 0x000004) {
        let x = (v.spec_first_sample_flags()->0).0;
        let h12 = h8 + field_bytes(trun_has(f, 0x000001), (v.spec_data_offset()->0) as u32);
        assert(e =~= h12 + u32_bytes(x) + e.skip(h12.len() as int + 4));
        lemma_be32_at(h12, x, e.skip(h12.len() as int + 4));
    }
    assert(trun_data_offset_of(e) == v.spec_data_offset());
    assert(trun_first_flags_of(e) == v.spec_first_sample_flags());
    assert(e.skip(trun_head_len(f)) =~= samples);
    assert forall|i: int| 0 <= i < n implies #[trigger] w.spec_entry(i) == v.spec_entry(i) by {
        lemma_record_of(v, n, i);
        assert(trun_sample_ok(v, i));
        lemma_entry_roundtrip(v, i);
    }
    if trun_has(f, 0x000100) {
        assert(w.spec_durations()->0 =~= v.spec_durations()->0) by {
            assert forall|i: int| 0 <= i < n implies (w.spec_durations()->0)[i] == (v.spec_durations()->0)[i] by {
                assert(w.spec_entry(i) == v.spec_entry(i));
            }
        }
    }
    if trun_has(f, 0x000200) {
        assert(w.spec_sizes()->0 =~= v.spec_sizes()->0) by {
            assert forall|i: int| 0 <= i < n implies (w.spec_sizes()->0)[i] == (v.spec_sizes()->0)[i] by {
                assert(w.spec_entry(i) == v.spec_entry(i));
            }
        }
    }
    if trun_has(f, 0x000400) {
        assert(w.spec_sample_flags()->0 =~= v.spec_sample_flags()->0) by {
            assert forall|i: int| 0 <= i < n implies (w.spec_sample_flags()->0)[i] == (v.spec_sample_flags()->0)[i] by {
                assert(w.spec_entry(i) == v.spec_entry(i));
            }
        }
    }
    if trun_has(f, 0x000800) {
        assert(w.spec_ctos()->0 =~= v.spec_ctos()->0) by {
            assert forall|i: int| 0 <= i < n implies (w.spec_ctos()->0)[i] == (v.spec_ctos()->0)[i] by {
                assert(w.spec_entry(i) == v.spec_entry(i));
            }
        }
    }
}

} // verus!
