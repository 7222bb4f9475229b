//! Elementary Stream Descriptor (ISO/IEC 14496-1, 7.2.6.5): the top
//! descriptor of an `esds` box, naming an elementary stream and holding its
//! decoder and sync layer configuration.
use vstd::prelude::*;

use vstd::string::StringSliceAdditionalSpecFns;
use vstd::utf8::{valid_utf8, encode_utf8, decode_utf8};

use crate::bytes::{be16, u16_bytes, opt_u32_bytes, lemma_be16_at};
use crate::cursor::{ReadCursor, splice, put_u8, put_u16, put_slice, lemma_splice_concat};
use crate::error::{Error, ErrorKind};
use crate::text::str_from_utf8;
use super::{RawDescriptorRef, RawDescriptorOwned, DescriptorIter, DescrLookup, descr_tag, descr_instance,
    spec_descriptors, spec_descriptors_ok, spec_descr_len, spec_find_descr, find_descr, lemma_descr_len_bounds,
    lemma_descriptors_step, owned_is, all_owned, last_tagged, untagged, lemma_tagged_push, size_len, size_bytes,
    SizeOfInstance, descr_bytes, descrs_bytes, descrs_writable, descrs_len, write_descrs_at};
use super::dec::{DecoderConfigDescriptorView, DecoderConfigDescriptor, dec_view_of, dec_parsed, dec_instance_ok, opt_descr_writable};

verus! {

/// Whether the flags byte `f` marks the field with bit `bit` (7, 6 or 5).
pub open spec fn es_flag(f: u8, bit: int) -> bool {
    if bit == 7 {
        f >= 128
    } else if bit == 6 {
        (f / 64) % 2 == 1
    } else {
        (f / 32) % 2 == 1
    }
}

/// Where the URL length stands in the ES Descriptor instance `s`.
pub open spec fn es_url_pos(s: Seq<u8>) -> int {
    3 + if es_flag(s[2], 7) { 2int } else { 0int }
}

/// Where the OCR stream id stands in the ES Descriptor instance `s`.
pub open spec fn es_ocr_pos(s: Seq<u8>) -> int {
    es_url_pos(s) + if es_flag(s[2], 6) { 1 + s[es_url_pos(s)] } else { 0int }
}

/// Where the descriptors start in the ES Descriptor instance `s`.
pub open spec fn es_descs_pos(s: Seq<u8>) -> int {
    es_ocr_pos(s) + if es_flag(s[2], 5) { 2int } else { 0int }
}

/// The bytes of the URL of the ES Descriptor instance `s`.
pub open spec fn es_url_bytes(s: Seq<u8>) -> Seq<u8> {
    s.subrange(es_url_pos(s) + 1, es_ocr_pos(s))
}

/// Whether `s` is an ES Descriptor instance that parses: the id and flags,
/// then each field the flags mark, the URL being valid UTF-8.
pub open spec fn es_accepts(s: Seq<u8>) -> bool {
    &&& s.len() >= 3
    &&& s.len() >= es_url_pos(s)
    &&& es_flag(s[2], 6) ==> s.len() >= es_url_pos(s) + 1 && s.len() >= es_ocr_pos(s) && valid_utf8(es_url_bytes(s))
    &&& s.len() >= es_descs_pos(s)
}

/// Whether `v` holds the fields of the ES Descriptor instance `s`.
pub open spec fn es_view_of<'a>(s: Seq<u8>, v: EsDescriptorView<'a>) -> bool {
    let f = s[2];
    &&& v.es_id == be16(s, 0)
    &&& v.stream_dependence_flag == es_flag(f, 7)
    &&& v.url_flag == es_flag(f, 6)
    &&& v.ocr_stream_flag == es_flag(f, 5)
    &&& v.stream_priority == f % 32
    &&& v.depends_on_es_id == (if es_flag(f, 7) { Some(be16(s, 3)) } else { None::<u16> })
    &&& (match v.url_string {
        Some(u) => es_flag(f, 6) && u.spec_bytes() == es_url_bytes(s),
        None => !es_flag(f, 6),
    })
    &&& v.ocr_es_id == (if es_flag(f, 5) { Some(be16(s, es_ocr_pos(s))) } else { None::<u16> })
    &&& v.descs@ == s.skip(es_descs_pos(s))
}

/// An ES Descriptor over the bytes of its descriptors.
#[derive(Debug)]
pub struct EsDescriptorView<'a> {
    /// The id of the elementary stream.
    pub es_id: u16,
    /// Whether the stream depends on another one.
    pub stream_dependence_flag: bool,
    /// Whether a URL is given.
    pub url_flag: bool,
    /// Whether an OCR stream is given.
    pub ocr_stream_flag: bool,
    /// Priority of the stream (0 to 31).
    pub stream_priority: u8,
    /// The stream this one depends on.
    pub depends_on_es_id: Option<u16>,
    /// The URL of the stream.
    pub url_string: Option<&'a str>,
    /// The OCR stream.
    pub ocr_es_id: Option<u16>,
    /// The descriptors.
    pub descs: &'a [u8],
}

impl<'a> EsDescriptorView<'a> {
    /// An iterator over the descriptors.
    pub fn descriptors(&self) -> (r: DescriptorIter<'a>)
        ensures
            r.data@ == self.descs@,
            r.pos == 0,
            r.rest() == self.descs@,
    {
        DescriptorIter::new(self.descs)
    }

    /// The Decoder Config Descriptor: the first with its tag; an error when
    /// there is none, a malformed descriptor comes before it, or it is too short.
    pub fn dec_config_descr(&self) -> (r: Result<DecoderConfigDescriptorView<'a>, Error>)
        ensures
            match spec_find_descr(self.descs@, 0x04) {
                DescrLookup::Found(inst) => (r is Ok) == (inst.len() >= 13) && (r matches Ok(v) ==> dec_view_of(inst, v)),
                _ => r is Err,
            },
    {
        match find_descr(self.descs, 0x04)? {
            Some(d) => DecoderConfigDescriptorView::parse(d.into_instance()),
            None => Err(Error::new(ErrorKind::Other { description: "Decoder Config Descriptor not found in ES Descriptor" })),
        }
    }

    /// The SL Config Descriptor: the first with its tag; an error when there
    /// is none or a malformed descriptor comes before it.
    pub fn sl_config_descr(&self) -> (r: Result<RawDescriptorRef<'a>, Error>)
        ensures
            match spec_find_descr(self.descs@, 0x06) {
                DescrLookup::Found(inst) => r matches Ok(d) && d.tag.0 == 0x06 && d.instance@ == inst,
                _ => r is Err,
            },
    {
        match find_descr(self.descs, 0x06)? {
            Some(d) => Ok(d),
            None => Err(Error::new(ErrorKind::Other { description: "SL Config Descriptor not found in ES Descriptor" })),
        }
    }

    /// Reads an ES Descriptor instance: an error when a field its flags mark
    /// is missing or the URL is not valid UTF-8.
    pub fn parse(instance: &'a [u8]) -> (r: Result<EsDescriptorView<'a>, Error>)
        ensures
            (r is Ok) == es_accepts(instance@),
            r matches Ok(v) ==> es_view_of(instance@, v),
    {
        let ghost s = instance@;
        let mut cur = ReadCursor::new(instance);
        let es_id = cur.read_u16_be()?;
        let f = cur.read_u8()?;
        let stream_dependence_flag = f >= 128;
        let url_flag = (f / 64) % 2 == 1;
        let ocr_stream_flag = (f / 32) % 2 == 1;
        let stream_priority = f % 32;
        let depends_on_es_id = if stream_dependence_flag {
            Some(cur.read_u16_be()?)
        } else {
            None
        };
        assert(cur.pos == es_url_pos(s));
        let url_string = if url_flag {
            let len = cur.read_u8()?;
            let b = cur.take(len as usize)?;
            assert(b@ =~= es_url_bytes(s));
            match str_from_utf8(b) {
                Some(u) => Some(u),
                None => {
                    return Err(Error::new(ErrorKind::Other { description: "Invalid UTF-8 in URL string" }));
                },
            }
        } else {
            None
        };
        assert(cur.pos == es_ocr_pos(s));
        let ocr_es_id = if ocr_stream_flag {
            Some(cur.read_u16_be()?)
        } else {
            None
        };
        assert(cur.pos == es_descs_pos(s));
        let n = cur.remaining();
        let descs = cur.take(n)?;
        assert(descs@ =~= s.skip(es_descs_pos(s)));
        Ok(EsDescriptorView {
            es_id,
            stream_dependence_flag,
            url_flag,
            ocr_stream_flag,
            stream_priority,
            depends_on_es_id,
            url_string,
            ocr_es_id,
            descs,
        })
    }
}

/// Whether the descriptors `ds` of an ES Descriptor make an owned one: a
/// Decoder Config Descriptor and an SL Config Descriptor among them, and
/// every Decoder Config Descriptor parsing.
pub open spec fn es_descrs_ok(ds: Seq<Seq<u8>>) -> bool {
    &&& last_tagged(ds, 0x04) is Some
    &&& last_tagged(ds, 0x06) is Some
    &&& forall|i: int| 0 <= i < ds.len() && descr_tag(ds[i]) == 0x04 ==> #[trigger] dec_instance_ok(descr_instance(ds[i]))
}

/// The tags of the descriptors an owned ES Descriptor holds apart.
pub open spec fn es_known() -> Seq<u8> {
    seq![0x04u8, 0x06u8]
}

/// Whether `o` holds the same string as `v`, or both are absent.
pub open spec fn same_url(o: Option<String>, v: Option<&str>) -> bool {
    match (o, v) {
        (Some(a), Some(b)) => a@ == b@,
        (None, None) => true,
        _ => false,
    }
}

/// An ES Descriptor with its descriptors held in memory.
#[derive(Debug, Clone)]
pub struct EsDescriptor {
    /// The id of the elementary stream.
    pub es_id: u16,
    /// Whether the stream depends on another one.
    pub stream_dependence_flag: bool,
    /// Whether a URL is given.
    pub url_flag: bool,
    /// Whether an OCR stream is given.
    pub ocr_stream_flag: bool,
    /// Priority of the stream (0 to 31).
    pub stream_priority: u8,
    /// The stream this one depends on.
    pub depends_on_es_id: Option<u16>,
    /// The URL of the stream.
    pub url_string: Option<String>,
    /// The OCR stream.
    pub ocr_es_id: Option<u16>,
    /// The Decoder Config Descriptor.
    pub dec_config_descr: DecoderConfigDescriptor,
    /// The SL Config Descriptor.
    pub sl_config_descr: RawDescriptorOwned,
    /// The other descriptors, in order.
    pub descriptors: Vec<RawDescriptorOwned>,
}

/// The two tags an owned ES Descriptor holds apart, and no other.
proof fn lemma_es_known(t: u8)
    ensures
        es_known().contains(t) <==> (t == 0x04 || t == 0x06),
{
    if t == 0x04 {
        assert(es_known()[0] == t);
    } else if t == 0x06 {
        assert(es_known()[1] == t);
    }
}

impl EsDescriptor {
    /// The owned descriptor of a view: the Decoder Config and SL Config
    /// Descriptors (the last of each when there are several) and the other
    /// descriptors in order; an error for a malformed descriptor, a Decoder
    /// Config Descriptor that does not parse, or a missing one of the two.
    pub fn try_from(value: &EsDescriptorView<'_>) -> (r: Result<EsDescriptor, Error>)
        ensures
            (r is Ok) == (spec_descriptors_ok(value.descs@) && es_descrs_ok(spec_descriptors(value.descs@))),
            r matches Ok(v) ==> {
                let ds = spec_descriptors(value.descs@);
                &&& v.es_id == value.es_id
                &&& v.stream_dependence_flag == value.stream_dependence_flag
                &&& v.url_flag == value.url_flag
                &&& v.ocr_stream_flag == value.ocr_stream_flag
                &&& v.stream_priority == value.stream_priority
                &&& v.depends_on_es_id == value.depends_on_es_id
                &&& same_url(v.url_string, value.url_string)
                &&& v.ocr_es_id == value.ocr_es_id
                &&& dec_parsed(descr_instance(last_tagged(ds, 0x04)->0), v.dec_config_descr)
                &&& owned_is(v.sl_config_descr, last_tagged(ds, 0x06)->0)
                &&& all_owned(v.descriptors@, untagged(ds, es_known()))
            },
    {
        let mut dec: Option<DecoderConfigDescriptor> = None;
        let mut sl: Option<RawDescriptorOwned> = None;
        let mut others: Vec<RawDescriptorOwned> = Vec::new();
        let mut it = value.descriptors();
        let ghost mut done: Seq<Seq<u8>> = Seq::empty();
        loop
            invariant_except_break
                it.data@ == value.descs@,
                it.pos <= it.data@.len(),
                spec_descriptors(value.descs@) == done + spec_descriptors(it.rest()),
                spec_descriptors_ok(value.descs@) == spec_descriptors_ok(it.rest()),
                match last_tagged(done, 0x04) {
                    None => dec is None,
                    Some(x) => dec matches Some(d) && dec_parsed(descr_instance(x), d),
                },
                forall|i: int| 0 <= i < done.len() && descr_tag(done[i]) == 0x04 ==> #[trigger] dec_instance_ok(descr_instance(done[i])),
                match last_tagged(done, 0x06) {
                    None => sl is None,
                    Some(x) => sl matches Some(d) && owned_is(d, x),
                },
                all_owned(others@, untagged(done, es_known())),
            ensures
                spec_descriptors_ok(value.descs@),
                spec_descriptors(value.descs@) == done,
                match last_tagged(done, 0x04) {
                    None => dec is None,
                    Some(x) => dec matches Some(d) && dec_parsed(descr_instance(x), d),
                },
                forall|i: int| 0 <= i < done.len() && descr_tag(done[i]) == 0x04 ==> #[trigger] dec_instance_ok(descr_instance(done[i])),
                match last_tagged(done, 0x06) {
                    None => sl is None,
                    Some(x) => sl matches Some(d) && owned_is(d, x),
                },
                all_owned(others@, untagged(done, es_known())),
            decreases it.data@.len() - it.pos,
        {
            let ghost rest = it.rest();
            match it.next() {
                None => {
                    assert(done + Seq::<Seq<u8>>::empty() =~= done);
                    break;
                },
                Some(Err(e)) => {
                    return Err(e);
                },
                Some(Ok(d)) => {
                    let ghost n = spec_descr_len(rest)->0;
                    let ghost w = rest.take(n);
                    let ghost after = spec_descriptors(rest.skip(n));
                    proof {
                        lemma_descriptors_step(rest);
                        lemma_descr_len_bounds(rest);
                        assert(done.push(w) + spec_descriptors(it.rest()) =~= done + (seq![w] + after));
                        lemma_tagged_push(done, w, 0x04, es_known());
                        lemma_tagged_push(done, w, 0x06, es_known());
                        lemma_es_known(descr_tag(w));
                    }
                    if d.tag.0 == 0x04 {
                        match DecoderConfigDescriptor::parse(d.into_instance()) {
                            Ok(x) => {
                                dec = Some(x);
                            },
                            Err(e) => {
                                proof {
                                    let all = done.push(w) + after;
                                    assert(all[done.len() as int] == w);
                                }
                                return Err(e);
                            },
                        }
                    } else if d.tag.0 == 0x06 {
                        sl = Some(d.to_owned());
                    } else {
                        let ghost before = others@;
                        others.push(d.to_owned());
                        proof {
                            assert forall|i: int| 0 <= i < others@.len() implies #[trigger] owned_is(others@[i], untagged(done.push(w), es_known())[i]) by {
                                if i < before.len() {
                                    assert(others@[i] == before[i]);
                                }
                            }
                        }
                    }
                    proof {
                        assert forall|i: int| 0 <= i < done.len() + 1 && descr_tag(done.push(w)[i]) == 0x04 implies #[trigger] dec_instance_ok(descr_instance(done.push(w)[i])) by {
                            if i < done.len() {
                                assert(done.push(w)[i] == done[i]);
                            }
                        }
                        done = done.push(w);
                    }
                },
            }
        }
        let dec_config_descr = match dec {
            Some(x) => x,
            None => {
                return Err(Error::new(ErrorKind::Other { description: "Decoder Config Descriptor not found in ES Descriptor" }));
            },
        };
        let sl_config_descr = match sl {
            Some(x) => x,
            None => {
                return Err(Error::new(ErrorKind::Other { description: "SL Config Descriptor not found in ES Descriptor" }));
            },
        };
        let url_string = match value.url_string {
            Some(u) => Some(u.to_owned()),
            None => None,
        };
        Ok(EsDescriptor {
            es_id: value.es_id,
            stream_dependence_flag: value.stream_dependence_flag,
            url_flag: value.url_flag,
            ocr_stream_flag: value.ocr_stream_flag,
            stream_priority: value.stream_priority,
            depends_on_es_id: value.depends_on_es_id,
            url_string,
            ocr_es_id: value.ocr_es_id,
            dec_config_descr,
            sl_config_descr,
            descriptors: others,
        })
    }

    /// Reads an ES Descriptor instance with its descriptors.
    pub fn parse(instance: &[u8]) -> (r: Result<EsDescriptor, Error>)
        ensures
            (r is Ok) == (es_accepts(instance@)
                && spec_descriptors_ok(instance@.skip(es_descs_pos(instance@)))
                && es_descrs_ok(spec_descriptors(instance@.skip(es_descs_pos(instance@))))),
            r matches Ok(v) ==> es_parsed(instance@, v),
    {
        let view = EsDescriptorView::parse(instance)?;
        let r = EsDescriptor::try_from(&view);
        proof {
            if let Some(u) = view.url_string {
                assert(u.spec_bytes() == encode_utf8(u@));
            }
        }
        r
    }
}

/// Whether `v` holds the ES Descriptor read from the instance `s`: its fields,
/// the last Decoder Config and SL Config Descriptors, and the other
/// descriptors in order.
pub open spec fn es_parsed(s: Seq<u8>, v: EsDescriptor) -> bool {
    let f = s[2];
    let ds = spec_descriptors(s.skip(es_descs_pos(s)));
    &&& v.es_id == be16(s, 0)
    &&& v.stream_dependence_flag == es_flag(f, 7)
    &&& v.url_flag == es_flag(f, 6)
    &&& v.ocr_stream_flag == es_flag(f, 5)
    &&& v.stream_priority == f % 32
    &&& v.depends_on_es_id == (if es_flag(f, 7) { Some(be16(s, 3)) } else { None::<u16> })
    &&& (match v.url_string {
        Some(u) => es_flag(f, 6) && encode_utf8(u@) == es_url_bytes(s),
        None => !es_flag(f, 6),
    })
    &&& v.ocr_es_id == (if es_flag(f, 5) { Some(be16(s, es_ocr_pos(s))) } else { None::<u16> })
    &&& dec_parsed(descr_instance(last_tagged(ds, 0x04)->0), v.dec_config_descr)
    &&& owned_is(v.sl_config_descr, last_tagged(ds, 0x06)->0)
    &&& all_owned(v.descriptors@, untagged(ds, es_known()))
}

/// The flags byte of `v`: bit 7 stream dependence, bit 6 URL, bit 5 OCR
/// stream, then the five bits of priority.
pub open spec fn es_flags_byte(v: EsDescriptor) -> u8 {
    ((if v.stream_dependence_flag { 128int } else { 0int }) + (if v.url_flag { 64int } else { 0int })
        + (if v.ocr_stream_flag { 32int } else { 0int }) + v.stream_priority % 32) as u8
}

/// The bytes of an optional 16-bit field.
pub open spec fn opt_u16_bytes(o: Option<u16>) -> Seq<u8> {
    match o {
        Some(x) => u16_bytes(x),
        None => Seq::empty(),
    }
}

/// The bytes of an optional URL: its length in a byte (the low byte of it),
/// then its UTF-8 bytes.
pub open spec fn url_part(o: Option<String>) -> Seq<u8> {
    match o {
        Some(u) => seq![(encode_utf8(u@).len() % 256) as u8] + encode_utf8(u@),
        None => Seq::empty(),
    }
}

impl EsDescriptor {
    /// The bytes this descriptor's instance is written as: id, flags, the
    /// optional fields that are present, the Decoder Config Descriptor with
    /// its tag and size, the SL Config Descriptor, and the other descriptors.
    pub open spec fn spec_bytes(&self) -> Seq<u8> {
        u16_bytes(self.es_id) + seq![es_flags_byte(*self)] + opt_u16_bytes(self.depends_on_es_id)
            + url_part(self.url_string) + opt_u16_bytes(self.ocr_es_id)
            + descr_bytes(0x04, self.dec_config_descr.spec_bytes()) + self.sl_config_descr.spec_bytes()
            + descrs_bytes(self.descriptors@)
    }

    /// Whether the optional fields are present exactly when their flags are set.
    pub open spec fn spec_consistent(&self) -> bool {
        &&& self.depends_on_es_id is Some == self.stream_dependence_flag
        &&& self.ocr_es_id is Some == self.ocr_stream_flag
    }

    /// The length of the written instance (saturating at `usize::MAX`); the
    /// optional fields are counted by their flags.
    #[verifier::rlimit(50)]
    pub fn encoded_len(&self) -> (r: usize)
        requires
            self.dec_config_descr.spec_writable(),
            self.dec_config_descr.spec_bytes().len() < 0x1000_0000,
        ensures
            self.spec_consistent() && self.sl_config_descr.spec_writable() && descrs_writable(self.descriptors@)
                && self.spec_bytes().len() <= usize::MAX ==> r == self.spec_bytes().len(),
    {
        let mut len: usize = 3;
        if self.stream_dependence_flag {
            len = len + 2;
        }
        let u: usize = match &self.url_string {
            Some(url) => {
                let n = url.as_str().as_bytes().len();
                if n > usize::MAX - 8 {
                    return usize::MAX;
                }
                1 + n
            },
            None => 0,
        };
        if u > usize::MAX - 8 {
            return usize::MAX;
        }
        len = len + u;
        if self.ocr_stream_flag {
            len = len + 2;
        }
        let d = self.dec_config_descr.encoded_len();
        let size = SizeOfInstance(d as u32);
        let (_, k) = size.to_bytes();
        let sl = self.sl_config_descr.len();
        let ds = descrs_len(&self.descriptors);
        if len > usize::MAX - 5 || d > usize::MAX - len - 1 - k {
            return usize::MAX;
        }
        len = len + 1 + k + d;
        if sl > usize::MAX - len {
            return usize::MAX;
        }
        len = len + sl;
        if ds > usize::MAX - len {
            return usize::MAX;
        }
        len + ds
    }

    /// The bytes before the descriptors: id, flags and the optional fields.
    pub open spec fn spec_head(&self) -> Seq<u8> {
        u16_bytes(self.es_id) + seq![es_flags_byte(*self)] + opt_u16_bytes(self.depends_on_es_id)
            + url_part(self.url_string) + opt_u16_bytes(self.ocr_es_id)
    }

    /// Writes the bytes before the descriptors at the start of `bytes`.
    #[verifier::rlimit(50)]
    fn write_head(&self, bytes: &mut [u8]) -> (r: Result<usize, Error>)
        ensures
            final(bytes)@.len() == old(bytes)@.len(),
            (r is Ok) == (self.spec_head().len() <= old(bytes)@.len()),
            r matches Ok(n) ==> n == self.spec_head().len() && final(bytes)@ == splice(old(bytes)@, 0, self.spec_head()),
    {
        let ghost s0 = bytes@;
        let ghost f0 = u16_bytes(self.es_id);
        let ghost f1 = f0 + seq![es_flags_byte(*self)];
        let ghost f2 = f1 + opt_u16_bytes(self.depends_on_es_id);
        let ghost f3 = f2 + url_part(self.url_string);
        let ghost f4 = f3 + opt_u16_bytes(self.ocr_es_id);
        assert(f4 =~= self.spec_head());
        let p = put_u16(bytes, 0, self.es_id)?;
        let a: u8 = if self.stream_dependence_flag { 128 } else { 0 };
        let b: u8 = if self.url_flag { 64 } else { 0 };
        let c: u8 = if self.ocr_stream_flag { 32 } else { 0 };
        let flags: u8 = a + b + c + self.stream_priority % 32;
        let p = put_u8(bytes, p, flags)?;
        proof {
            lemma_splice_concat(s0, 0, f0, seq![flags]);
        }
        let p = match self.depends_on_es_id {
            Some(x) => {
                let q = put_u16(bytes, p, x)?;
                proof {
                    lemma_splice_concat(s0, 0, f1, u16_bytes(x));
                }
                q
            },
            None => {
                assert(f2 =~= f1);
                p
            },
        };
        let p = match &self.url_string {
            Some(url) => {
                let ub = url.as_str().as_bytes();
                let n = ub.len();
                let lb: u8 = (n % 256) as u8;
                let q = put_u8(bytes, p, lb)?;
                let q = put_slice(bytes, q, ub)?;
                proof {
                    lemma_splice_concat(s0, 0, f2, seq![lb]);
                    lemma_splice_concat(s0, 0, f2 + seq![lb], ub@);
                    assert(f2 + seq![lb] + ub@ =~= f3);
                }
                q
            },
            None => {
                assert(f3 =~= f2);
                p
            },
        };
        let p = match self.ocr_es_id {
            Some(x) => {
                let q = put_u16(bytes, p, x)?;
                proof {
                    lemma_splice_concat(s0, 0, f3, u16_bytes(x));
                }
                q
            },
            None => {
                assert(f4 =~= f3);
                p
            },
        };
        Ok(p)
    }

    /// Writes the instance at the start of `bytes`, and returns its length.
    #[verifier::rlimit(50)]
    pub fn write(&self, bytes: &mut [u8]) -> (r: Result<usize, Error>)
        requires
            self.dec_config_descr.spec_writable(),
            self.dec_config_descr.spec_bytes().len() < 0x1000_0000,
        ensures
            final(bytes)@.len() == old(bytes)@.len(),
            (r is Ok) == (self.sl_config_descr.spec_writable() && descrs_writable(self.descriptors@)
                && self.spec_bytes().len() <= old(bytes)@.len()),
            r matches Ok(n) ==> n == self.spec_bytes().len() && final(bytes)@ == splice(old(bytes)@, 0, self.spec_bytes()),
    {
        let ghost s0 = bytes@;
        let ghost f4 = self.spec_head();
        let ghost db = self.dec_config_descr.spec_bytes();
        let ghost f5 = f4 + descr_bytes(0x04, db);
        let ghost f6 = f5 + self.sl_config_descr.spec_bytes();
        let ghost f7 = f6 + descrs_bytes(self.descriptors@);
        assert(f7 =~= self.spec_bytes());
        let p = self.write_head(bytes)?;
        let d = self.dec_config_descr.encoded_len();
        let size = SizeOfInstance(d as u32);
        let (arr, k) = size.to_bytes();
        let p = put_u8(bytes, p, 0x04)?;
        proof {
            lemma_splice_concat(s0, 0, f4, seq![0x04u8]);
        }
        let field = &arr.as_slice()[0..k];
        assert(field@ =~= size_bytes(d as int));
        let p = put_slice(bytes, p, field)?;
        proof {
            lemma_splice_concat(s0, 0, f4 + seq![0x04u8], size_bytes(d as int));
        }
        let p = self.dec_config_descr.write_at(bytes, p)?;
        proof {
            lemma_splice_concat(s0, 0, f4 + seq![0x04u8] + size_bytes(d as int), db);
            assert(f4 + seq![0x04u8] + size_bytes(d as int) + db =~= f5);
        }
        let p = self.sl_config_descr.write_at(bytes, p)?;
        proof {
            lemma_splice_concat(s0, 0, f5, self.sl_config_descr.spec_bytes());
        }
        let p = write_descrs_at(bytes, p, &self.descriptors)?;
        proof {
            lemma_splice_concat(s0, 0, f6, descrs_bytes(self.descriptors@));
        }
        Ok(p)
    }
}


/// Reading back what an ES Descriptor is written as: the instance parses
/// (its optional fields present as the flags say, a URL shorter than 256
/// bytes, a priority below 32), and gives back its fields, with its
/// descriptors as the descriptors that follow the fixed fields.
pub proof fn lemma_es_write_parse<'a>(v: EsDescriptor, w: EsDescriptorView<'a>)
    requires
        v.spec_consistent(),
        v.url_flag == v.url_string is Some,
        v.url_string matches Some(u) ==> encode_utf8(u@).len() < 256,
        v.stream_priority < 32,
        es_view_of(v.spec_bytes(), w),
    ensures
        es_accepts(v.spec_bytes()),
        w.es_id == v.es_id,
        w.stream_dependence_flag == v.stream_dependence_flag,
        w.url_flag == v.url_flag,
        w.ocr_stream_flag == v.ocr_stream_flag,
        w.stream_priority == v.stream_priority,
        w.depends_on_es_id == v.depends_on_es_id,
        same_url(v.url_string, w.url_string),
        w.ocr_es_id == v.ocr_es_id,
        w.descs@ == descr_bytes(0x04, v.dec_config_descr.spec_bytes()) + v.sl_config_descr.spec_bytes()
            + descrs_bytes(v.descriptors@),
{
    lemma_es_bytes_parse(v);
    let e = v.spec_bytes();
    match (v.url_string, w.url_string) {
        (Some(a), Some(b)) => {
            broadcast use vstd::utf8::encode_utf8_decode_utf8;
            assert(b.spec_bytes() == encode_utf8(b@));
            assert(decode_utf8(encode_utf8(a@)) == a@);
            assert(decode_utf8(encode_utf8(b@)) == b@);
        },
        _ => {},
    }
}

/// The bytes of an optional URL given by its UTF-8 bytes: their length in a
/// byte, then the bytes.
pub open spec fn url_bytes_part(o: Option<Seq<u8>>) -> Seq<u8> {
    match o {
        Some(ub) => seq![(ub.len() % 256) as u8] + ub,
        None => Seq::empty(),
    }
}

/// The flags byte with the three flags `a`, `b`, `c` and the priority `p`
/// reads them back.
proof fn lemma_es_flag_bits(fb: u8, a: bool, b: bool, c: bool, p: u8)
    requires
        p < 32,
        fb as int == (if a { 128int } else { 0 }) + (if b { 64int } else { 0 }) + (if c { 32int } else { 0 }) + p,
    ensures
        es_flag(fb, 7) == a,
        es_flag(fb, 6) == b,
        es_flag(fb, 5) == c,
        fb % 32 == p,
{
    let x: int = if a { 1 } else { 0 };
    let y: int = if b { 1 } else { 0 };
    let z: int = if c { 1 } else { 0 };
    assert(fb as int == 128 * x + 64 * y + 32 * z + p);
    assert(((fb / 64) % 2 == 1) == (y == 1) && ((fb / 32) % 2 == 1) == (z == 1) && fb % 32 == p) by (nonlinear_arith)
        requires
            fb as int == 128 * x + 64 * y + 32 * z + p,
            0 <= x <= 1,
            0 <= y <= 1,
            0 <= z <= 1,
            0 <= p < 32,
    ;
}

/// Where the fields of an ES Descriptor instance laid out from its parts stand.
proof fn lemma_es_layout(e: Seq<u8>, id: u16, fb: u8, dep: Option<u16>, url: Option<Seq<u8>>, ocr: Option<u16>, rest: Seq<u8>)
    requires
        e == u16_bytes(id) + seq![fb] + opt_u16_bytes(dep) + url_bytes_part(url) + opt_u16_bytes(ocr) + rest,
        es_flag(fb, 7) == dep is Some,
        es_flag(fb, 6) == url is Some,
        es_flag(fb, 5) == ocr is Some,
        url matches Some(ub) ==> ub.len() < 256 && valid_utf8(ub),
    ensures
        es_accepts(e),
        be16(e, 0) == id,
        e[2] == fb,
        dep matches Some(x) ==> be16(e, 3) == x,
        url matches Some(ub) ==> es_url_bytes(e) == ub,
        ocr matches Some(x) ==> be16(e, es_ocr_pos(e)) == x,
        e.skip(es_descs_pos(e)) == rest,
{
    let d = opt_u16_bytes(dep);
    let up = url_bytes_part(url);
    let o = opt_u16_bytes(ocr);
    lemma_be16_at(Seq::empty(), id, seq![fb] + d + up + o + rest);
    assert(Seq::<u8>::empty() + u16_bytes(id) + (seq![fb] + d + up + o + rest) =~= e);
    let h = u16_bytes(id) + seq![fb];
    assert(e[2] == fb);
    if let Some(x) = dep {
        lemma_be16_at(h, x, up + o + rest);
        assert(h + u16_bytes(x) + (up + o + rest) =~= e);
    }
    let hd = h + d;
    assert(es_url_pos(e) == hd.len());
    if let Some(ub) = url {
        assert(e =~= hd + up + (o + rest));
        assert(e[hd.len() as int] == up[0]);
        assert(es_ocr_pos(e) == hd.len() + 1 + ub.len());
        assert(es_url_bytes(e) =~= ub);
    }
    let hu = hd + up;
    assert(es_ocr_pos(e) == hu.len());
    if let Some(x) = ocr {
        lemma_be16_at(hu, x, rest);
        assert(hu + u16_bytes(x) + rest =~= e);
    }
    assert(es_descs_pos(e) == hu.len() + o.len());
    assert(e =~= hu + o + rest);
    assert(e.skip(es_descs_pos(e)) =~= rest);
}

/// What the fields of an ES Descriptor read as from its bytes.
proof fn lemma_es_bytes_parse(v: EsDescriptor)
    requires
        v.spec_consistent(),
        v.url_flag == v.url_string is Some,
        v.url_string matches Some(u) ==> encode_utf8(u@).len() < 256,
        v.stream_priority < 32,
    ensures
        ({
            let e = v.spec_bytes();
            let f = e[2];
            &&& es_accepts(e)
            &&& be16(e, 0) == v.es_id
            &&& es_flag(f, 7) == v.stream_dependence_flag
            &&& es_flag(f, 6) == v.url_flag
            &&& es_flag(f, 5) == v.ocr_stream_flag
            &&& f % 32 == v.stream_priority
            &&& (es_flag(f, 7) ==> v.depends_on_es_id == Some(be16(e, 3)))
            &&& (v.url_string matches Some(u) ==> es_url_bytes(e) == encode_utf8(u@))
            &&& (es_flag(f, 5) ==> v.ocr_es_id == Some(be16(e, es_ocr_pos(e))))
            &&& e.skip(es_descs_pos(e)) == descr_bytes(0x04, v.dec_config_descr.spec_bytes())
                + v.sl_config_descr.spec_bytes() + descrs_bytes(v.descriptors@)
        }),
{
    broadcast use vstd::utf8::encode_utf8_valid_utf8;
    let e = v.spec_bytes();
    let fb = es_flags_byte(v);
    let url: Option<Seq<u8>> = match v.url_string {
        Some(u) => Some(encode_utf8(u@)),
        None => None,
    };
    let rest = descr_bytes(0x04, v.dec_config_descr.spec_bytes()) + v.sl_config_descr.spec_bytes()
        + descrs_bytes(v.descriptors@);
    assert(url_part(v.url_string) == url_bytes_part(url));
    lemma_es_flag_bits(fb, v.stream_dependence_flag, v.url_flag, v.ocr_stream_flag, v.stream_priority);
    assert(e =~= u16_bytes(v.es_id) + seq![fb] + opt_u16_bytes(v.depends_on_es_id) + url_bytes_part(url)
        + opt_u16_bytes(v.ocr_es_id) + rest);
    lemma_es_layout(e, v.es_id, fb, v.depends_on_es_id, url, v.ocr_es_id, rest);
}

} // verus!
