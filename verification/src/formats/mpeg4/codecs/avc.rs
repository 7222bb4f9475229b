//! AVC Decoder Configuration Record (ISO/IEC 14496-15, 5.3.3.1): profile,
//! compatibility and level, the NAL unit length size, and the sequence and
//! picture parameter sets, each a 16-bit length then its bytes. Bytes after
//! the picture parameter sets (the extension of the high profiles) are kept
//! as they are.
use vstd::prelude::*;

use crate::bytes::{be16, u16_bytes, lemma_be16_at};
use crate::cursor::{ReadCursor, splice, put_u8, put_u16, put_slice, lemma_splice_concat};
use crate::error::{Error, ErrorKind};

verus! {

/// The `n` parameter sets at the start of `s` (each a 16-bit length, then
/// its bytes) and the bytes after them; `None` when they run past the end.
pub open spec fn ps_split(s: Seq<u8>, n: nat) -> Option<(Seq<Seq<u8>>, Seq<u8>)>
    decreases n,
{
    if n == 0 {
        Some((Seq::empty(), s))
    } else if s.len() < 2 || s.len() < 2 + be16(s, 0) {
        None
    } else {
        match ps_split(s.skip(2 + be16(s, 0)), (n - 1) as nat) {
            None => None,
            Some((es, rest)) => Some((seq![s.subrange(2, 2 + be16(s, 0))] + es, rest)),
        }
    }
}

/// The bytes of parameter sets, each a 16-bit length then its bytes.
pub open spec fn ps_join(es: Seq<Seq<u8>>) -> Seq<u8>
    decreases es.len(),
{
    if es.len() == 0 {
        Seq::empty()
    } else {
        u16_bytes(es[0].len() as u16) + es[0] + ps_join(es.skip(1))
    }
}

/// Whether every parameter set fits its 16-bit length.
pub open spec fn ps_fit(es: Seq<Seq<u8>>) -> bool {
    forall|i: int| 0 <= i < es.len() ==> #[trigger] es[i].len() <= u16::MAX
}

/// The contents of slices.
pub open spec fn slices_view<'a>(v: Seq<&'a [u8]>) -> Seq<Seq<u8>> {
    v.map_values(|x: &'a [u8]| x@)
}

/// The contents of vectors.
pub open spec fn vecs_view(v: Seq<Vec<u8>>) -> Seq<Seq<u8>> {
    v.map_values(|x: Vec<u8>| x@)
}

/// Parameter sets written one after another read back as themselves.
pub proof fn lemma_ps_roundtrip(es: Seq<Seq<u8>>, rest: Seq<u8>)
    requires
        ps_fit(es),
    ensures
        ps_split(ps_join(es) + rest, es.len()) == Some((es, rest)),
    decreases es.len(),
{
    if es.len() > 0 {
        let e = es[0];
        let tail = es.skip(1);
        assert(ps_fit(tail)) by {
            assert forall|i: int| 0 <= i < tail.len() implies #[trigger] tail[i].len() <= u16::MAX by {
                assert(tail[i] == es[i + 1]);
            }
        }
        lemma_ps_roundtrip(tail, rest);
        let s = ps_join(es) + rest;
        assert(s =~= u16_bytes(e.len() as u16) + (e + ps_join(tail) + rest));
        lemma_be16_at(Seq::empty(), e.len() as u16, e + ps_join(tail) + rest);
        assert(Seq::<u8>::empty() + u16_bytes(e.len() as u16) + (e + ps_join(tail) + rest) =~= s);
        assert(s.subrange(2, 2 + e.len() as int) =~= e);
        assert(s.skip(2 + e.len() as int) =~= ps_join(tail) + rest);
        assert(seq![e] + tail =~= es);
        assert(es.len() - 1 == tail.len());
    }
}

/// Reads `n` parameter sets from `cur`.
fn read_ps<'a>(cur: &mut ReadCursor<'a>, n: u8) -> (r: Result<Vec<&'a [u8]>, Error>)
    requires
        old(cur).wf(),
    ensures
        final(cur).wf(),
        final(cur).bytes@ == old(cur).bytes@,
        (r is Ok) == (ps_split(old(cur).rest(), n as nat) is Some),
        r matches Ok(v) ==> ps_split(old(cur).rest(), n as nat) == Some((slices_view(v@), final(cur).rest())),
{
    let mut out: Vec<&'a [u8]> = Vec::new();
    let mut i: u8 = 0;
    let ghost s0 = cur.rest();
    proof {
        assert(slices_view(out@) =~= Seq::<Seq<u8>>::empty());
        assert(Seq::<Seq<u8>>::empty() + Seq::<Seq<u8>>::empty() =~= Seq::<Seq<u8>>::empty());
    }
    while i < n
        invariant
            cur.wf(),
            cur.bytes@ == old(cur).bytes@,
            s0 == old(cur).rest(),
            i <= n,
            ps_split(s0, n as nat) == (match ps_split(cur.rest(), (n - i) as nat) {
                None => None,
                Some((es, rest)) => Some((slices_view(out@) + es, rest)),
            }),
        decreases n - i,
    {
        let ghost r0 = cur.rest();
        let len = match cur.read_u16_be() {
            Ok(x) => x,
            Err(e) => {
                return Err(e);
            },
        };
        assert(len == be16(r0, 0));
        let b = match cur.take(len as usize) {
            Ok(x) => x,
            Err(e) => {
                return Err(e);
            },
        };
        proof {
            assert(b@ =~= r0.subrange(2, 2 + len));
            assert(cur.rest() =~= r0.skip(2 + len));
        }
        let ghost before = out@;
        out.push(b);
        proof {
            assert(slices_view(out@) =~= slices_view(before).push(b@));
            match ps_split(cur.rest(), (n - i - 1) as nat) {
                None => {},
                Some((es, rest)) => {
                    assert(slices_view(before) + (seq![b@] + es) =~= slices_view(out@) + es);
                },
            }
        }
        i = i + 1;
    }
    proof {
        assert(slices_view(out@) + Seq::<Seq<u8>>::empty() =~= slices_view(out@));
    }
    Ok(out)
}

/// Whether `v` holds the fields of the configuration record `s`: version,
/// profile, compatibility and level; the low two bits of the fifth byte; the
/// low five bits of the sixth (the count of sequence parameter sets) and the
/// sets; the count of picture parameter sets and the sets; the bytes after.
pub open spec fn avc_record_of<'a>(s: Seq<u8>, v: AVCDecoderConfigurationRecordView<'a>) -> bool {
    &&& s.len() >= 6
    &&& v.configuration_version == s[0]
    &&& v.avc_profile_indication == s[1]
    &&& v.profile_compatibility == s[2]
    &&& v.avc_level_indication == s[3]
    &&& v.length_size_minus_one == s[4] % 4
    &&& v.num_of_sps == s[5] % 32
    &&& ps_split(s.skip(6), (s[5] % 32) as nat) matches Some((sps, rest1))
    &&& slices_view(v.sps_list@) == sps
    &&& rest1.len() >= 1
    &&& v.num_of_pps == rest1[0]
    &&& ps_split(rest1.skip(1), rest1[0] as nat) matches Some((pps, rest2))
    &&& slices_view(v.pps_list@) == pps
    &&& v.ext@ == rest2
}

/// Whether the configuration record `s` parses.
pub open spec fn avc_record_ok(s: Seq<u8>) -> bool {
    &&& s.len() >= 6
    &&& ps_split(s.skip(6), (s[5] % 32) as nat) matches Some((sps, rest1))
    &&& rest1.len() >= 1
    &&& ps_split(rest1.skip(1), rest1[0] as nat) is Some
}

/// An AVC Decoder Configuration Record over the bytes of its parameter sets.
#[derive(Debug)]
pub struct AVCDecoderConfigurationRecordView<'a> {
    /// Version of the record (1).
    pub configuration_version: u8,
    /// Profile (`profile_idc`).
    pub avc_profile_indication: u8,
    /// The constraint flags between profile and level.
    pub profile_compatibility: u8,
    /// Level (`level_idc`).
    pub avc_level_indication: u8,
    /// Length in bytes of the NAL unit length field, minus one.
    pub length_size_minus_one: u8,
    /// Number of sequence parameter sets.
    pub num_of_sps: u8,
    /// Number of picture parameter sets.
    pub num_of_pps: u8,
    /// The sequence parameter sets.
    pub sps_list: Vec<&'a [u8]>,
    /// The picture parameter sets.
    pub pps_list: Vec<&'a [u8]>,
    /// The bytes after the picture parameter sets.
    pub ext: &'a [u8],
}

impl<'a> AVCDecoderConfigurationRecordView<'a> {
    /// Reads a configuration record: an error when it is truncated.
    pub fn parse(s: &'a [u8]) -> (r: Result<AVCDecoderConfigurationRecordView<'a>, Error>)
        ensures
            (r is Ok) == avc_record_ok(s@),
            r matches Ok(v) ==> avc_record_of(s@, v),
    {
        let mut cur = ReadCursor::new(s);
        if s.len() < 6 {
            return Err(Error::new(ErrorKind::NotEnoughBytes { expected: 6, remaining: s.len() }));
        }
        let configuration_version = s[0];
        let avc_profile_indication = s[1];
        let profile_compatibility = s[2];
        let avc_level_indication = s[3];
        let length_size_minus_one = s[4] % 4;
        let num_of_sps = s[5] % 32;
        cur.advance(6)?;
        assert(cur.rest() =~= s@.skip(6));
        let sps_list = read_ps(&mut cur, num_of_sps)?;
        let ghost rest1 = cur.rest();
        let num_of_pps = cur.read_u8()?;
        assert(num_of_pps == rest1[0]);
        assert(cur.rest() =~= rest1.skip(1));
        let pps_list = read_ps(&mut cur, num_of_pps)?;
        let n = cur.remaining();
        let ext = cur.take(n)?;
        assert(ext@ =~= cur.bytes@.skip(cur.bytes@.len() - n));
        Ok(AVCDecoderConfigurationRecordView {
            configuration_version,
            avc_profile_indication,
            profile_compatibility,
            avc_level_indication,
            length_size_minus_one,
            num_of_sps,
            num_of_pps,
            sps_list,
            pps_list,
            ext,
        })
    }

    /// The sequence parameter sets, in order.
    pub fn sps(&self) -> (r: Vec<&'a [u8]>)
        ensures
            r@ == self.sps_list@,
    {
        self.sps_list.clone()
    }

    /// The picture parameter sets, in order.
    pub fn pps(&self) -> (r: Vec<&'a [u8]>)
        ensures
            r@ == self.pps_list@,
    {
        self.pps_list.clone()
    }
}

/// Copies parameter sets out of the slices they are held in.
fn copy_sets(v: &Vec<&[u8]>) -> (r: Vec<Vec<u8>>)
    ensures
        vecs_view(r@) == slices_view(v@),
{
    let mut out: Vec<Vec<u8>> = Vec::new();
    let mut i: usize = 0;
    while i < v.len()
        invariant
            i <= v@.len(),
            out@.len() == i,
            forall|j: int| 0 <= j < i ==> #[trigger] out@[j]@ == v@[j]@,
        decreases v@.len() - i,
    {
        out.push(vstd::slice::slice_to_vec(v[i]));
        i = i + 1;
    }
    assert(vecs_view(out@) =~= slices_view(v@));
    out
}

/// An AVC Decoder Configuration Record held in memory.
#[derive(Debug, Clone)]
pub struct AVCDecoderConfigurationRecord {
    /// Version of the record (1).
    pub configuration_version: u8,
    /// Profile (`profile_idc`).
    pub avc_profile_indication: u8,
    /// The constraint flags between profile and level.
    pub profile_compatibility: u8,
    /// Level (`level_idc`).
    pub avc_level_indication: u8,
    /// Length in bytes of the NAL unit length field, minus one.
    pub length_size_minus_one: u8,
    /// The sequence parameter sets.
    pub sps: Vec<Vec<u8>>,
    /// The picture parameter sets.
    pub pps: Vec<Vec<u8>>,
    /// The bytes after the picture parameter sets.
    pub ext: Vec<u8>,
}

impl AVCDecoderConfigurationRecord {
    /// The owned record of a view.
    pub fn from_view(view: &AVCDecoderConfigurationRecordView<'_>) -> (r: AVCDecoderConfigurationRecord)
        ensures
            r.configuration_version == view.configuration_version,
            r.avc_profile_indication == view.avc_profile_indication,
            r.profile_compatibility == view.profile_compatibility,
            r.avc_level_indication == view.avc_level_indication,
            r.length_size_minus_one == view.length_size_minus_one,
            vecs_view(r.sps@) == slices_view(view.sps_list@),
            vecs_view(r.pps@) == slices_view(view.pps_list@),
            r.ext@ == view.ext@,
    {
        AVCDecoderConfigurationRecord {
            configuration_version: view.configuration_version,
            avc_profile_indication: view.avc_profile_indication,
            profile_compatibility: view.profile_compatibility,
            avc_level_indication: view.avc_level_indication,
            length_size_minus_one: view.length_size_minus_one,
            sps: copy_sets(&view.sps_list),
            pps: copy_sets(&view.pps_list),
            ext: vstd::slice::slice_to_vec(view.ext),
        }
    }

    /// The bytes of the record: the reserved bits are written as ones, the
    /// counts from the numbers of parameter sets.
    pub open spec fn spec_bytes(&self) -> Seq<u8> {
        seq![self.configuration_version, self.avc_profile_indication, self.profile_compatibility, self.avc_level_indication,
            (0xFC + self.length_size_minus_one % 4) as u8, (0xE0 + self.sps@.len() % 32) as u8]
            + ps_join(vecs_view(self.sps@)) + seq![(self.pps@.len() % 256) as u8] + ps_join(vecs_view(self.pps@)) + self.ext@
    }

    /// Whether the record can be written: at most 31 sequence and 255 picture
    /// parameter sets, each fitting its 16-bit length.
    pub open spec fn spec_writable(&self) -> bool {
        &&& self.sps@.len() <= 31
        &&& self.pps@.len() <= 255
        &&& ps_fit(vecs_view(self.sps@))
        &&& ps_fit(vecs_view(self.pps@))
    }

    /// The length of the written record (saturating at `usize::MAX`).
    pub fn encoded_len(&self) -> (r: usize)
        ensures
            self.spec_writable() && self.spec_bytes().len() <= usize::MAX ==> r == self.spec_bytes().len(),
    {
        let a = sets_len(&self.sps);
        let b = sets_len(&self.pps);
        let e = self.ext.len();
        proof {
            lemma_ps_join_len(vecs_view(self.sps@));
            lemma_ps_join_len(vecs_view(self.pps@));
        }
        if a > usize::MAX - 7 || b > usize::MAX - 7 - a || e > usize::MAX - 7 - a - b {
            return usize::MAX;
        }
        7 + a + b + e
    }

    /// Writes the record at the start of `buf`, and returns its length: an
    /// error when it cannot be written or does not fit.
    #[verifier::rlimit(40)]
    pub fn write(&self, buf: &mut [u8]) -> (r: Result<usize, Error>)
        ensures
            final(buf)@.len() == old(buf)@.len(),
            (r is Ok) == (self.spec_writable() && self.spec_bytes().len() <= old(buf)@.len()),
            r matches Ok(n) ==> n == self.spec_bytes().len() && final(buf)@ == splice(old(buf)@, 0, self.spec_bytes()),
    {
        let ghost s0 = buf@;
        if self.sps.len() > 31 || self.pps.len() > 255 {
            return Err(Error::new(ErrorKind::Other { description: "too many parameter sets" }));
        }
        let ghost h = seq![self.configuration_version, self.avc_profile_indication, self.profile_compatibility, self.avc_level_indication,
            (0xFC + self.length_size_minus_one % 4) as u8, (0xE0 + self.sps@.len() % 32) as u8];
        if buf.len() < 6 {
            return Err(crate::codec::short_buffer(6, buf.len()));
        }
        let b4: u8 = 0xFC + self.length_size_minus_one % 4;
        let b5: u8 = 0xE0 + (self.sps.len() % 32) as u8;
        let head = [self.configuration_version, self.avc_profile_indication, self.profile_compatibility, self.avc_level_indication, b4, b5];
        assert(head@ =~= h);
        let p = put_slice(buf, 0, head.as_slice())?;
        let p = write_sets(buf, p, &self.sps)?;
        proof { lemma_splice_concat(s0, 0, h, ps_join(vecs_view(self.sps@))); }
        let ghost f1 = h + ps_join(vecs_view(self.sps@));
        let np: u8 = self.pps.len() as u8;
        let p = put_u8(buf, p, np)?;
        proof { lemma_splice_concat(s0, 0, f1, seq![np]); }
        let p = write_sets(buf, p, &self.pps)?;
        proof { lemma_splice_concat(s0, 0, f1 + seq![np], ps_join(vecs_view(self.pps@))); }
        let ghost f2 = f1 + seq![np] + ps_join(vecs_view(self.pps@));
        let p = put_slice(buf, p, self.ext.as_slice())?;
        proof {
            lemma_splice_concat(s0, 0, f2, self.ext@);
            assert(f2 + self.ext@ =~= self.spec_bytes());
        }
        Ok(p)
    }
}

/// The written parameter sets take two bytes more each.
pub proof fn lemma_ps_join_len(es: Seq<Seq<u8>>)
    ensures
        ps_join(es).len() == sets_total(es),
    decreases es.len(),
{
    if es.len() > 0 {
        lemma_ps_join_len(es.skip(1));
    }
}

/// The total length of parameter sets with their lengths.
pub open spec fn sets_total(es: Seq<Seq<u8>>) -> int
    decreases es.len(),
{
    if es.len() == 0 {
        0
    } else {
        2 + es[0].len() + sets_total(es.skip(1))
    }
}

/// The written sets of the first `i` and then set `i`.
proof fn lemma_ps_join_split(es: Seq<Seq<u8>>, i: int)
    requires
        0 <= i <= es.len(),
    ensures
        ps_join(es) == ps_join(es.take(i)) + ps_join(es.skip(i)),
    decreases i,
{
    if i > 0 {
        lemma_ps_join_split(es.skip(1), i - 1);
        assert(es.skip(1).take(i - 1) =~= es.take(i).skip(1));
        assert(es.skip(1).skip(i - 1) =~= es.skip(i));
        assert(es.take(i)[0] == es[0]);
        assert(ps_join(es.take(i)) == u16_bytes(es[0].len() as u16) + es[0] + ps_join(es.take(i).skip(1)));
    } else {
        assert(es.take(0) =~= Seq::<Seq<u8>>::empty());
        assert(es.skip(0) =~= es);
    }
}

/// One set more at the end of the sets written so far.
proof fn lemma_ps_join_step(es: Seq<Seq<u8>>, i: int)
    requires
        0 <= i < es.len(),
    ensures
        ps_join(es.take(i + 1)) == ps_join(es.take(i)) + u16_bytes(es[i].len() as u16) + es[i],
{
    let t = es.take(i + 1);
    lemma_ps_join_split(t, i);
    assert(t.take(i) =~= es.take(i));
    assert(t.skip(i) =~= seq![es[i]]);
    assert(ps_join(seq![es[i]]) =~= u16_bytes(es[i].len() as u16) + es[i] + ps_join(Seq::<Seq<u8>>::empty())) by {
        assert(seq![es[i]].skip(1) =~= Seq::<Seq<u8>>::empty());
    }
}

/// The length of written parameter sets (saturating at `usize::MAX`).
fn sets_len(v: &Vec<Vec<u8>>) -> (r: usize)
    ensures
        sets_total(vecs_view(v@)) <= usize::MAX ==> r == sets_total(vecs_view(v@)),
{
    let mut total: usize = 0;
    let mut i: usize = 0;
    let ghost es = vecs_view(v@);
    proof {
        assert(es.skip(0) =~= es);
        lemma_sets_total_nonneg(es);
    }
    while i < v.len()
        invariant
            es == vecs_view(v@),
            i <= v@.len(),
            es.len() == v@.len(),
            sets_total(es) <= usize::MAX ==> total == sets_total(es) - sets_total(es.skip(i as int)),
            sets_total(es.skip(i as int)) >= 0,
        decreases v@.len() - i,
    {
        proof {
            assert(es.skip(i as int).skip(1) =~= es.skip(i + 1));
            assert(es.skip(i as int)[0] == es[i as int]);
            lemma_sets_total_nonneg(es.skip(i + 1));
        }
        let n = v[i].len();
        if n > usize::MAX - 2 || total > usize::MAX - 2 - n {
            return usize::MAX;
        }
        total = total + 2 + n;
        i = i + 1;
    }
    assert(es.skip(i as int) =~= Seq::<Seq<u8>>::empty());
    total
}

/// The total length of parameter sets is never negative.
proof fn lemma_sets_total_nonneg(es: Seq<Seq<u8>>)
    ensures
        sets_total(es) >= 0,
    decreases es.len(),
{
    if es.len() > 0 {
        lemma_sets_total_nonneg(es.skip(1));
    }
}

/// Writes parameter sets into `buf` at `pos`, each a 16-bit length then its bytes.
fn write_sets(buf: &mut [u8], pos: usize, v: &Vec<Vec<u8>>) -> (r: Result<usize, Error>)
    requires
        pos <= old(buf)@.len(),
    ensures
        final(buf)@.len() == old(buf)@.len(),
        (r is Ok) == (ps_fit(vecs_view(v@)) && pos + ps_join(vecs_view(v@)).len() <= old(buf)@.len()),
        r matches Ok(p) ==> p == pos + ps_join(vecs_view(v@)).len() && final(buf)@ == splice(old(buf)@, pos as int, ps_join(vecs_view(v@))),
{
    let ghost s0 = buf@;
    let ghost es = vecs_view(v@);
    let mut p = pos;
    let mut i: usize = 0;
    proof {
        assert(es.take(0) =~= Seq::<Seq<u8>>::empty());
        crate::cursor::lemma_splice_empty(s0, pos as int);
        lemma_ps_join_split(es, 0);
    }
    while i < v.len()
        invariant
            s0 == old(buf)@,
            es == vecs_view(v@),
            es.len() == v@.len(),
            pos <= s0.len(),
            i <= v@.len(),
            buf@.len() == s0.len(),
            forall|k: int| 0 <= k < i ==> #[trigger] es[k].len() <= u16::MAX,
            p == pos + ps_join(es.take(i as int)).len(),
            p <= s0.len(),
            buf@ == splice(s0, pos as int, ps_join(es.take(i as int))),
        decreases v@.len() - i,
    {
        proof {
            lemma_ps_join_step(es, i as int);
            lemma_ps_join_split(es, i + 1);
        }
        let n = v[i].len();
        if n > 0xFFFF {
            return Err(Error::new(ErrorKind::Other { description: "parameter set longer than 65535 bytes" }));
        }
        let q = put_u16(buf, p, n as u16)?;
        proof {
            lemma_splice_concat(s0, pos as int, ps_join(es.take(i as int)), u16_bytes(n as u16));
        }
        let q = put_slice(buf, q, v[i].as_slice())?;
        proof {
            lemma_splice_concat(s0, pos as int, ps_join(es.take(i as int)) + u16_bytes(n as u16), es[i as int]);
        }
        p = q;
        i = i + 1;
    }
    assert(es.take(i as int) =~= es);
    Ok(p)
}

/// Reading back a written record gives its fields, with the counts of
/// parameter sets and the sets themselves.
#[verifier::rlimit(40)]
pub proof fn lemma_avc_record_roundtrip<'a>(v: AVCDecoderConfigurationRecord, w: AVCDecoderConfigurationRecordView<'a>)
    requires
        v.spec_writable(),
        avc_record_of(v.spec_bytes(), w),
    ensures
        avc_record_ok(v.spec_bytes()),
        w.configuration_version == v.configuration_version,
        w.avc_profile_indication == v.avc_profile_indication,
        w.profile_compatibility == v.profile_compatibility,
        w.avc_level_indication == v.avc_level_indication,
        w.length_size_minus_one == v.length_size_minus_one % 4,
        w.num_of_sps == v.sps@.len(),
        w.num_of_pps == v.pps@.len(),
        slices_view(w.sps_list@) == vecs_view(v.sps@),
        slices_view(w.pps_list@) == vecs_view(v.pps@),
        w.ext@ == v.ext@,
{
    let e = v.spec_bytes();
    let sps = vecs_view(v.sps@);
    let pps = vecs_view(v.pps@);
    let rest1 = seq![(v.pps@.len() % 256) as u8] + ps_join(pps) + v.ext@;
    assert(sps.len() == v.sps@.len());
    assert(pps.len() == v.pps@.len());
    assert(e[5] % 32 == v.sps@.len());
    assert(e[4] % 4 == v.length_size_minus_one % 4);
    assert(ps_split(e.skip(6), (e[5] % 32) as nat) == Some((sps, rest1))) by {
        assert(e.skip(6) =~= ps_join(sps) + rest1);
        lemma_ps_roundtrip(sps, rest1);
    }
    assert(rest1[0] == v.pps@.len());
    assert(ps_split(rest1.skip(1), rest1[0] as nat) == Some((pps, v.ext@))) by {
        assert(rest1.skip(1) =~= ps_join(pps) + v.ext@);
        lemma_ps_roundtrip(pps, v.ext@);
    }
}

/// The layout of an AVC decoder configuration record: version, profile, compatibility and level in bytes 0 to 3, the NAL length size minus one in the low two bits of byte 4, and the SPS count in the low five bits of byte 5.
pub proof fn lemma_avc_record_layout<'a>(s: Seq<u8>, v: AVCDecoderConfigurationRecordView<'a>)
    requires
        avc_record_of(s, v),
    ensures
        s.len() >= 6,
        v.configuration_version == s[0],
        v.avc_profile_indication == s[1],
        v.profile_compatibility == s[2],
        v.avc_level_indication == s[3],
        v.length_size_minus_one == s[4] % 4,
        v.num_of_sps == s[5] % 32,
{
}

} // verus!
