//! Decoder Configuration Descriptor (ISO/IEC 14496-1, 7.2.6.6): the codec
//! of an elementary stream, its buffer size and bitrates, and the
//! descriptors that configure the decoder.
use vstd::prelude::*;

use crate::bytes::{be24, be32, u32_bytes, lemma_be32_at};
use crate::cursor::{ReadCursor, splice, put_u8, put_u32, put_slice, lemma_splice_concat};
use crate::error::Error;
use super::{RawDescriptorRef, RawDescriptorOwned, DescriptorIter, DescrLookup, Tag, descr_tag, descr_instance,
    spec_descriptors, spec_descriptors_ok, spec_descr_len, spec_find_descr, find_descr, lemma_descr_len_bounds,
    lemma_descriptors_step, owned_is, all_owned, last_tagged, untagged, lemma_tagged_push, opt_owned_is,
    descrs_bytes, descrs_writable, descrs_len, write_descrs_at, size_field_len};

verus! {

/// The codec or kind of content of an elementary stream.
#[derive(Debug, Clone, Copy, PartialEq, Eq, Structural)]
pub struct ObjectTypeIndication(pub u8);

impl ObjectTypeIndication {
    /// MPEG-4 Audio (AAC), 0x40.
    pub fn mpeg4_audio() -> (r: ObjectTypeIndication)
        ensures
            r.0 == 0x40,
    {
        ObjectTypeIndication(0x40)
    }

    /// MPEG-4 Visual, 0x20.
    pub fn mpeg4_visual() -> (r: ObjectTypeIndication)
        ensures
            r.0 == 0x20,
    {
        ObjectTypeIndication(0x20)
    }

    /// AVC (H.264) video, 0x21.
    pub fn avc_video() -> (r: ObjectTypeIndication)
        ensures
            r.0 == 0x21,
    {
        ObjectTypeIndication(0x21)
    }

    /// The raw value.
    pub fn value(&self) -> (r: u8)
        ensures
            r == self.0,
    {
        self.0
    }
}

/// The kind of an elementary stream.
#[derive(Debug, Clone, Copy, PartialEq, Eq, Structural)]
pub struct StreamType(pub u8);

impl StreamType {
    /// An audio stream, 0x05.
    pub fn audio_stream() -> (r: StreamType)
        ensures
            r.0 == 0x05,
    {
        StreamType(0x05)
    }

    /// A visual stream, 0x04.
    pub fn visual_stream() -> (r: StreamType)
        ensures
            r.0 == 0x04,
    {
        StreamType(0x04)
    }

    /// A text stream, 0x06.
    pub fn text_stream() -> (r: StreamType)
        ensures
            r.0 == 0x06,
    {
        StreamType(0x06)
    }

    /// The raw value.
    pub fn value(&self) -> (r: u8)
        ensures
            r == self.0,
    {
        self.0
    }
}

/// Whether `v` holds the fields of the Decoder Config Descriptor instance
/// `s`: object type, the byte of stream type (its six high bits) and
/// upstream flag (bit 1), the 24-bit buffer size, the maximum and average
/// bitrates, and the descriptors after them.
pub open spec fn dec_view_of<'a>(s: Seq<u8>, v: DecoderConfigDescriptorView<'a>) -> bool {
    &&& v.object_type_indication.0 == s[0]
    &&& v.stream_type.0 == s[1] / 4
    &&& v.up_stream == ((s[1] / 2) % 2 == 1)
    &&& v.buffer_size_db@ == s.subrange(2, 5)
    &&& v.max_bitrate == be32(s, 5)
    &&& v.avg_bitrate == be32(s, 9)
    &&& v.descs@ == s.skip(13)
}

/// A Decoder Config Descriptor over the bytes of its descriptors.
#[derive(Debug)]
pub struct DecoderConfigDescriptorView<'a> {
    /// The codec.
    pub object_type_indication: ObjectTypeIndication,
    /// The kind of stream.
    pub stream_type: StreamType,
    /// Whether the stream flows upstream.
    pub up_stream: bool,
    /// Size of the decoding buffer in bytes, 24 bits, most significant first.
    pub buffer_size_db: [u8; 3],
    /// Maximum bitrate in bits per second.
    pub max_bitrate: u32,
    /// Average bitrate in bits per second.
    pub avg_bitrate: u32,
    /// The descriptors.
    pub descs: &'a [u8],
}

impl<'a> DecoderConfigDescriptorView<'a> {
    /// An iterator over the descriptors.
    pub fn descriptors(&self) -> (r: DescriptorIter<'a>)
        ensures
            r.data@ == self.descs@,
            r.pos == 0,
            r.rest() == self.descs@,
    {
        DescriptorIter::new(self.descs)
    }

    /// The Decoder Specific Info descriptor, if any: the first with its tag;
    /// an error for a malformed descriptor before it.
    pub fn dec_specific_info(&self) -> (r: Result<Option<RawDescriptorRef<'a>>, Error>)
        ensures
            match spec_find_descr(self.descs@, 0x05) {
                DescrLookup::Found(inst) => r matches Ok(Some(d)) && d.tag.0 == 0x05 && d.instance@ == inst,
                DescrLookup::Missing => r matches Ok(None),
                DescrLookup::Malformed => r is Err,
            },
    {
        find_descr(self.descs, 0x05)
    }

    /// Reads a Decoder Config Descriptor instance: an error when it is
    /// shorter than its thirteen fixed bytes.
    pub fn parse(instance: &'a [u8]) -> (r: Result<DecoderConfigDescriptorView<'a>, Error>)
        ensures
            (r is Ok) == (instance@.len() >= 13),
            r matches Ok(v) ==> dec_view_of(instance@, v),
    {
        let ghost s = instance@;
        let mut cur = ReadCursor::new(instance);
        let oti = cur.read_u8()?;
        let b = cur.read_u8()?;
        let stream_type = StreamType(b / 4);
        let up_stream = (b / 2) % 2 == 1;
        let raw = cur.take(3)?;
        let buffer_size_db = [raw[0], raw[1], raw[2]];
        let max_bitrate = cur.read_u32_be()?;
        let avg_bitrate = cur.read_u32_be()?;
        let n = cur.remaining();
        let descs = cur.take(n)?;
        assert(buffer_size_db@ =~= s.subrange(2, 5));
        assert(descs@ =~= s.skip(13));
        Ok(DecoderConfigDescriptorView {
            object_type_indication: ObjectTypeIndication(oti),
            stream_type,
            up_stream,
            buffer_size_db,
            max_bitrate,
            avg_bitrate,
            descs,
        })
    }
}

/// Whether the Decoder Config Descriptor instance `s` parses with its descriptors.
pub open spec fn dec_instance_ok(s: Seq<u8>) -> bool {
    s.len() >= 13 && spec_descriptors_ok(s.skip(13))
}

/// Whether `v` is what the Decoder Config Descriptor instance `s` parses to:
/// its fixed fields, the last Decoder Specific Info descriptor, and the
/// other descriptors in order.
pub open spec fn dec_parsed(s: Seq<u8>, v: DecoderConfigDescriptor) -> bool {
    &&& v.object_type_indication.0 == s[0]
    &&& v.stream_type.0 == s[1] / 4
    &&& v.up_stream == ((s[1] / 2) % 2 == 1)
    &&& v.buffer_size_db@ == s.subrange(2, 5)
    &&& v.max_bitrate == be32(s, 5)
    &&& v.avg_bitrate == be32(s, 9)
    &&& opt_owned_is(v.dec_specific_info, last_tagged(spec_descriptors(s.skip(13)), 0x05))
    &&& all_owned(v.extentions@, untagged(spec_descriptors(s.skip(13)), seq![0x05u8]))
}

/// A Decoder Config Descriptor with its descriptors held in memory.
#[derive(Debug, Clone)]
pub struct DecoderConfigDescriptor {
    /// The codec.
    pub object_type_indication: ObjectTypeIndication,
    /// The kind of stream.
    pub stream_type: StreamType,
    /// Whether the stream flows upstream.
    pub up_stream: bool,
    /// Size of the decoding buffer in bytes, 24 bits, most significant first.
    pub buffer_size_db: [u8; 3],
    /// Maximum bitrate in bits per second.
    pub max_bitrate: u32,
    /// Average bitrate in bits per second.
    pub avg_bitrate: u32,
    /// The Decoder Specific Info descriptor (the codec's own configuration).
    pub dec_specific_info: Option<RawDescriptorOwned>,
    /// The other descriptors, in order.
    pub extentions: Vec<RawDescriptorOwned>,
}

/// The byte that holds the stream type and the upstream flag; the reserved bit is 0.
pub open spec fn stream_type_byte(st: u8, up: bool) -> u8 {
    ((st % 64) * 4 + (if up { 2int } else { 0int })) as u8
}

/// The bytes of an optional descriptor.
pub open spec fn opt_descr_bytes(o: Option<RawDescriptorOwned>) -> Seq<u8> {
    match o {
        Some(d) => d.spec_bytes(),
        None => Seq::empty(),
    }
}

/// Whether an optional descriptor can be written.
pub open spec fn opt_descr_writable(o: Option<RawDescriptorOwned>) -> bool {
    match o {
        Some(d) => d.spec_writable(),
        None => true,
    }
}

impl DecoderConfigDescriptor {
    /// The owned descriptor of a view: a descriptor with the Decoder Specific
    /// Info tag is kept as `dec_specific_info` (the last one when there are
    /// several), every other one among `extentions`; an error for a
    /// malformed descriptor.
    pub fn try_from(view: &DecoderConfigDescriptorView<'_>) -> (r: Result<DecoderConfigDescriptor, Error>)
        ensures
            (r is Ok) == spec_descriptors_ok(view.descs@),
            r matches Ok(v) ==> {
                &&& v.object_type_indication == view.object_type_indication
                &&& v.stream_type == view.stream_type
                &&& v.up_stream == view.up_stream
                &&& v.buffer_size_db == view.buffer_size_db
                &&& v.max_bitrate == view.max_bitrate
                &&& v.avg_bitrate == view.avg_bitrate
                &&& opt_owned_is(v.dec_specific_info, last_tagged(spec_descriptors(view.descs@), 0x05))
                &&& all_owned(v.extentions@, untagged(spec_descriptors(view.descs@), seq![0x05u8]))
            },
    {
        let mut dsi: Option<RawDescriptorOwned> = None;
        let mut ext: Vec<RawDescriptorOwned> = Vec::new();
        let mut it = view.descriptors();
        let ghost mut done: Seq<Seq<u8>> = Seq::empty();
        let ghost ts = seq![0x05u8];
        loop
            invariant_except_break
                ts == seq![0x05u8],
                it.data@ == view.descs@,
                it.pos <= it.data@.len(),
                spec_descriptors(view.descs@) == done + spec_descriptors(it.rest()),
                spec_descriptors_ok(view.descs@) == spec_descriptors_ok(it.rest()),
                opt_owned_is(dsi, last_tagged(done, 0x05)),
                all_owned(ext@, untagged(done, ts)),
            ensures
                spec_descriptors_ok(view.descs@),
                spec_descriptors(view.descs@) == done,
                opt_owned_is(dsi, last_tagged(done, 0x05)),
                all_owned(ext@, untagged(done, ts)),
            decreases it.data@.len() - it.pos,
        {
            let ghost rest = it.rest();
            match it.next() {
                None => {
                    assert(done + Seq::<Seq<u8>>::empty() =~= done);
                    break;
                },
                Some(Err(e)) => {
                    return Err(e);
                },
                Some(Ok(d)) => {
                    let ghost n = spec_descr_len(rest)->0;
                    let ghost w = rest.take(n);
                    proof {
                        lemma_descriptors_step(rest);
                        lemma_descr_len_bounds(rest);
                        assert(done.push(w) + spec_descriptors(it.rest()) =~= done + (seq![w] + spec_descriptors(rest.skip(n))));
                        lemma_tagged_push(done, w, 0x05, ts);
                        if descr_tag(w) == 0x05 {
                            assert(ts.contains(descr_tag(w))) by {
                                assert(ts[0] == descr_tag(w));
                            }
                        } else {
                            assert(!ts.contains(descr_tag(w))) by {
                                if ts.contains(descr_tag(w)) {
                                    let j = choose|j: int| 0 <= j < ts.len() && ts[j] == descr_tag(w);
                                    assert(j == 0);
                                }
                            }
                        }
                    }
                    let o = d.to_owned();
                    if d.tag.0 == 0x05 {
                        dsi = Some(o);
                    } else {
                        let ghost before = ext@;
                        ext.push(o);
                        proof {
                            assert forall|i: int| 0 <= i < ext@.len() implies #[trigger] owned_is(ext@[i], untagged(done.push(w), ts)[i]) by {
                                if i < before.len() {
                                    assert(ext@[i] == before[i]);
                                }
                            }
                        }
                    }
                    proof {
                        done = done.push(w);
                    }
                },
            }
        }
        Ok(DecoderConfigDescriptor {
            object_type_indication: view.object_type_indication,
            stream_type: view.stream_type,
            up_stream: view.up_stream,
            buffer_size_db: view.buffer_size_db,
            max_bitrate: view.max_bitrate,
            avg_bitrate: view.avg_bitrate,
            dec_specific_info: dsi,
            extentions: ext,
        })
    }

    /// The bytes this descriptor's instance is written as: the thirteen fixed
    /// bytes, the Decoder Specific Info if any, then the other descriptors.
    pub open spec fn spec_bytes(&self) -> Seq<u8> {
        seq![self.object_type_indication.0, stream_type_byte(self.stream_type.0, self.up_stream)]
            + self.buffer_size_db@ + u32_bytes(self.max_bitrate) + u32_bytes(self.avg_bitrate)
            + opt_descr_bytes(self.dec_specific_info) + descrs_bytes(self.extentions@)
    }

    /// Whether every descriptor can be written and the whole fits in memory.
    pub open spec fn spec_writable(&self) -> bool {
        &&& opt_descr_writable(self.dec_specific_info)
        &&& descrs_writable(self.extentions@)
        &&& self.spec_bytes().len() <= usize::MAX
    }

    /// The length of the written instance (saturating at `usize::MAX`).
    pub fn encoded_len(&self) -> (r: usize)
        ensures
            self.spec_writable() ==> r == self.spec_bytes().len(),
    {
        let ghost l1 = opt_descr_bytes(self.dec_specific_info).len();
        let ghost l2 = descrs_bytes(self.extentions@).len();
        assert(self.spec_bytes().len() == 13 + l1 + l2);
        let a: usize = match &self.dec_specific_info {
            Some(d) => d.len(),
            None => 0,
        };
        let b = descrs_len(&self.extentions);
        if a > usize::MAX - 13 {
            return usize::MAX;
        }
        if b > usize::MAX - 13 - a {
            return usize::MAX;
        }
        13 + a + b
    }

    /// Reads a Decoder Config Descriptor instance with its descriptors.
    pub fn parse(instance: &[u8]) -> (r: Result<DecoderConfigDescriptor, Error>)
        ensures
            (r is Ok) == dec_instance_ok(instance@),
            r matches Ok(v) ==> dec_parsed(instance@, v),
    {
        let view = DecoderConfigDescriptorView::parse(instance)?;
        DecoderConfigDescriptor::try_from(&view)
    }

    /// Writes the instance at the start of `bytes`, and returns its length.
    /// The reserved bit of the stream type byte is written as 0.
    pub fn write(&self, bytes: &mut [u8]) -> (r: Result<usize, Error>)
        ensures
            final(bytes)@.len() == old(bytes)@.len(),
            (r is Ok) == (opt_descr_writable(self.dec_specific_info) && descrs_writable(self.extentions@)
                && self.spec_bytes().len() <= old(bytes)@.len()),
            r matches Ok(n) ==> n == self.spec_bytes().len() && final(bytes)@ == splice(old(bytes)@, 0, self.spec_bytes()),
    {
        self.write_at(bytes, 0)
    }

    /// The thirteen bytes of the fixed fields.
    pub open spec fn spec_head(&self) -> Seq<u8> {
        seq![self.object_type_indication.0] + seq![stream_type_byte(self.stream_type.0, self.up_stream)]
            + self.buffer_size_db@ + u32_bytes(self.max_bitrate) + u32_bytes(self.avg_bitrate)
    }

    /// Writes the fixed fields into `bytes` at `pos`, and returns the position after them.
    fn write_head_at(&self, bytes: &mut [u8], pos: usize) -> (r: Result<usize, Error>)
        requires
            pos <= old(bytes)@.len(),
        ensures
            final(bytes)@.len() == old(bytes)@.len(),
            self.spec_head().len() == 13,
            (r is Ok) == (pos + 13 <= old(bytes)@.len()),
            r matches Ok(n) ==> n == pos + 13 && final(bytes)@ == splice(old(bytes)@, pos as int, self.spec_head()),
    {
        let ghost s0 = bytes@;
        let ghost f0 = seq![self.object_type_indication.0];
        let ghost f1 = f0 + seq![stream_type_byte(self.stream_type.0, self.up_stream)];
        let ghost f2 = f1 + self.buffer_size_db@;
        let ghost f3 = f2 + u32_bytes(self.max_bitrate);
        assert(f3 + u32_bytes(self.avg_bitrate) =~= self.spec_head());
        if bytes.len() - pos < 13 {
            return Err(crate::codec::short_buffer(13, bytes.len() - pos));
        }
        let p = put_u8(bytes, pos, self.object_type_indication.0)?;
        let up: u8 = if self.up_stream {
            2
        } else {
            0
        };
        let b: u8 = (self.stream_type.0 % 64) * 4 + up;
        let p = put_u8(bytes, p, b)?;
        proof {
            lemma_splice_concat(s0, pos as int, f0, seq![b]);
        }
        let p = put_slice(bytes, p, self.buffer_size_db.as_slice())?;
        proof {
            lemma_splice_concat(s0, pos as int, f1, self.buffer_size_db@);
        }
        let p = put_u32(bytes, p, self.max_bitrate)?;
        proof {
            lemma_splice_concat(s0, pos as int, f2, u32_bytes(self.max_bitrate));
        }
        let p = put_u32(bytes, p, self.avg_bitrate)?;
        proof {
            lemma_splice_concat(s0, pos as int, f3, u32_bytes(self.avg_bitrate));
        }
        Ok(p)
    }

    /// Writes the instance into `bytes` at `pos`, and returns the position after it.
    pub fn write_at(&self, bytes: &mut [u8], pos: usize) -> (r: Result<usize, Error>)
        requires
            pos <= old(bytes)@.len(),
        ensures
            final(bytes)@.len() == old(bytes)@.len(),
            (r is Ok) == (opt_descr_writable(self.dec_specific_info) && descrs_writable(self.extentions@)
                && pos + self.spec_bytes().len() <= old(bytes)@.len()),
            r matches Ok(n) ==> n == pos + self.spec_bytes().len() && final(bytes)@ == splice(old(bytes)@, pos as int, self.spec_bytes()),
    {
        let ghost s0 = bytes@;
        let ghost f4 = self.spec_head();
        let ghost f5 = f4 + opt_descr_bytes(self.dec_specific_info);
        let ghost f6 = f5 + descrs_bytes(self.extentions@);
        assert(f6 =~= self.spec_bytes());
        let p = self.write_head_at(bytes, pos)?;
        let p = match &self.dec_specific_info {
            Some(d) => {
                let q = d.write_at(bytes, p)?;
                proof {
                    lemma_splice_concat(s0, pos as int, f4, d.spec_bytes());
                }
                q
            },
            None => {
                assert(f5 =~= f4);
                p
            },
        };
        let p = write_descrs_at(bytes, p, &self.extentions)?;
        proof {
            lemma_splice_concat(s0, pos as int, f5, descrs_bytes(self.extentions@));
        }
        Ok(p)
    }
}

/// Reading back what a Decoder Config Descriptor is written as gives its
/// fixed fields (the stream type below 64), and its descriptors as the
/// descriptors that follow.
pub proof fn lemma_dec_write_parse<'a>(v: DecoderConfigDescriptor, w: DecoderConfigDescriptorView<'a>)
    requires
        v.stream_type.0 < 64,
        dec_view_of(v.spec_bytes(), w),
    ensures
        v.spec_bytes().len() >= 13,
        w.object_type_indication == v.object_type_indication,
        w.stream_type == v.stream_type,
        w.up_stream == v.up_stream,
        w.buffer_size_db == v.buffer_size_db,
        w.max_bitrate == v.max_bitrate,
        w.avg_bitrate == v.avg_bitrate,
        w.descs@ == opt_descr_bytes(v.dec_specific_info) + descrs_bytes(v.extentions@),
{
    let e = v.spec_bytes();
    let kids = opt_descr_bytes(v.dec_specific_info) + descrs_bytes(v.extentions@);
    let b = stream_type_byte(v.stream_type.0, v.up_stream);
    let h = seq![v.object_type_indication.0, b] + v.buffer_size_db@;
    assert(e =~= h + u32_bytes(v.max_bitrate) + (u32_bytes(v.avg_bitrate) + kids));
    lemma_be32_at(h, v.max_bitrate, u32_bytes(v.avg_bitrate) + kids);
    assert(e =~= (h + u32_bytes(v.max_bitrate)) + u32_bytes(v.avg_bitrate) + kids);
    lemma_be32_at(h + u32_bytes(v.max_bitrate), v.avg_bitrate, kids);
    assert(e[1] == b);
    assert(b / 4 == v.stream_type.0);
    assert((b / 2) % 2 == 1 <==> v.up_stream);
    assert(w.buffer_size_db =~= v.buffer_size_db) by {
        assert(e.subrange(2, 5) =~= v.buffer_size_db@);
    }
    assert(e.skip(13) =~= kids);
}

/// The layout of a Decoder Config Descriptor: object type in byte 0, stream type in the top six bits of byte 1 and the upstream flag below them, buffer size in bytes 2 to 5, maximum and average bitrates at 5 and 9, descriptors from 13.
pub proof fn lemma_dec_view_layout<'a>(s: Seq<u8>, v: DecoderConfigDescriptorView<'a>)
    requires
        dec_view_of(s, v),
    ensures
        v.object_type_indication.0 == s[0],
        v.stream_type.0 == s[1] / 4,
        v.up_stream == ((s[1] / 2) % 2 == 1),
        v.buffer_size_db@ == s.subrange(2, 5),
        v.max_bitrate == be32(s, 5),
        v.avg_bitrate == be32(s, 9),
        v.descs@ == s.skip(13),
{
}

} // verus!
