//! Channel Layout Box (`chnl`): the channel layout of an audio stream, as a
//! predefined layout or explicit speaker positions, and its object count.
use vstd::prelude::*;

use crate::bytes::{be16, be24, be64, u24_bytes, u16_bytes, u64_bytes, lemma_be24_at, lemma_be64_at};
use crate::codec::{BoxCodec, BoxDecode, BoxEncode, short_buffer};
use crate::cursor::{put_slice, put_u8, put_u24, put_u64, lemma_splice_concat, ReadCursor};
use crate::error::{Error, ErrorKind};
use crate::flags::{BoxFlags, ChnlFlags};
use crate::types::BoxType;

verus! {

/// The position of one speaker.
#[derive(Debug, Clone, Copy, PartialEq, Eq)]
pub struct SpeakerPosition {
    /// The speaker position code; 126 means the angles follow.
    pub position: u8,
    /// Azimuth in degrees, for an explicit position.
    pub azimuth: Option<i16>,
    /// Elevation in degrees, for an explicit position.
    pub elevation: Option<i8>,
}

/// The speaker positions of `n` channels at the start of `s`: one byte each,
/// and for position 126 an azimuth and an elevation after it; `None` when
/// `s` is too short.
pub open spec fn speaker_positions_of(s: Seq<u8>, n: nat) -> Option<Seq<SpeakerPosition>>
    decreases n,
{
    if n == 0 {
        Some(Seq::empty())
    } else if s.len() < 1 {
        None
    } else if s[0] == 126 {
        if s.len() < 4 {
            None
        } else {
            match speaker_positions_of(s.skip(4), (n - 1) as nat) {
                None => None,
                Some(r) => Some(seq![SpeakerPosition { position: 126, azimuth: Some(be16(s, 1) as i16), elevation: Some(s[3] as i8) }] + r),
            }
        }
    } else {
        match speaker_positions_of(s.skip(1), (n - 1) as nat) {
            None => None,
            Some(r) => Some(seq![SpeakerPosition { position: s[0], azimuth: None, elevation: None }] + r),
        }
    }
}

/// Reads the speaker positions of `n` channels from `data`.
fn read_speaker_positions(data: &[u8], n: u16) -> (r: Result<Vec<SpeakerPosition>, Error>)
    ensures
        (r is Ok) == (speaker_positions_of(data@, n as nat) is Some),
        r matches Ok(v) ==> v@ == speaker_positions_of(data@, n as nat)->0,
{
    let mut cur = ReadCursor::new(data);
    let mut out: Vec<SpeakerPosition> = Vec::new();
    let mut i: u16 = 0;
    assert(cur.rest() =~= data@);
    while i < n
        invariant
            cur.wf(),
            cur.bytes@ == data@,
            i <= n,
            speaker_positions_of(data@, n as nat) == (match speaker_positions_of(cur.rest(), (n - i) as nat) {
                Some(r) => Some(out@ + r),
                None => None,
            }),
        decreases n - i,
    {
        let ghost rest = cur.rest();
        let position = cur.read_u8()?;
        let ghost before = out@;
        if position == 126 {
            let azimuth = cur.read_i16_be()?;
            let elevation = cur.read_i8()?;
            out.push(SpeakerPosition { position, azimuth: Some(azimuth), elevation: Some(elevation) });
            proof {
                assert(rest[0] == 126);
                assert(cur.rest() =~= rest.skip(4));
                assert(azimuth == be16(rest, 1) as i16);
                assert(elevation == rest[3] as i8);
            }
        } else {
            out.push(SpeakerPosition { position, azimuth: None, elevation: None });
            proof {
                assert(cur.rest() =~= rest.skip(1));
            }
        }
        proof {
            let x = out@.last();
            match speaker_positions_of(cur.rest(), (n - i - 1) as nat) {
                Some(r) => {
                    assert(before + (seq![x] + r) =~= out@ + r);
                },
                None => {},
            }
        }
        i = i + 1;
    }
    assert(out@ + Seq::<SpeakerPosition>::empty() =~= out@);
    Ok(out)
}

/// The channel layout of a `chnl` box; `T` holds explicit speaker positions.
#[derive(Debug, Clone)]
pub enum ChannelLayout<T> {
    /// Explicit speaker positions.
    Explicit(T),
    /// A predefined layout.
    Predefined {
        /// The layout code (not 0).
        defined_layout: u8,
        /// Bit map of the layout's channels that are absent.
        omitted_channels_map: u64,
    },
}

impl<'a> ChannelLayout<&'a [u8]> {
    /// The speaker positions of `channel_count` channels of an explicit
    /// layout (`None` for a predefined one); an error when the data is too short.
    pub fn speaker_positions(&self, channel_count: u16) -> (r: Option<Result<Vec<SpeakerPosition>, Error>>)
        ensures
            match self {
                ChannelLayout::Explicit(d) => r matches Some(x) && (x is Ok) == (speaker_positions_of(d@, channel_count as nat) is Some)
                    && (x matches Ok(v) ==> v@ == speaker_positions_of(d@, channel_count as nat)->0),
                ChannelLayout::Predefined { .. } => r is None,
            },
    {
        match self {
            ChannelLayout::Explicit(data) => Some(read_speaker_positions(data, channel_count)),
            ChannelLayout::Predefined { .. } => None,
        }
    }
}

impl ChannelLayout<Vec<u8>> {
    /// The speaker positions of `channel_count` channels of an explicit
    /// layout (`None` for a predefined one); an error when the data is too short.
    pub fn speaker_positions(&self, channel_count: u16) -> (r: Option<Result<Vec<SpeakerPosition>, Error>>)
        ensures
            match self {
                ChannelLayout::Explicit(d) => r matches Some(x) && (x is Ok) == (speaker_positions_of(d@, channel_count as nat) is Some)
                    && (x matches Ok(v) ==> v@ == speaker_positions_of(d@, channel_count as nat)->0),
                ChannelLayout::Predefined { .. } => r is None,
            },
    {
        match self {
            ChannelLayout::Explicit(data) => Some(read_speaker_positions(data.as_slice(), channel_count)),
            ChannelLayout::Predefined { .. } => None,
        }
    }
}

/// Whether the stream structure marks a channel layout.
pub open spec fn chnl_has_channels(ss: u8) -> bool {
    ss % 2 == 1
}

/// Whether the stream structure marks an object count.
pub open spec fn chnl_has_objects(ss: u8) -> bool {
    (ss / 2) % 2 == 1
}

/// Where the object count of a `chnl` payload stands: at the end after
/// explicit positions, else after the fields before it.
pub open spec fn chnl_object_pos(bytes: Seq<u8>) -> int {
    if chnl_has_channels(bytes[4]) {
        if bytes[5] == 0 {
            bytes.len() - 1
        } else {
            14
        }
    } else {
        5
    }
}

/// The payloads a `chnl` box accepts: the header and stream structure; the
/// layout it marks; and the object count it marks.
pub open spec fn chnl_accepts(bytes: Seq<u8>) -> bool {
    &&& bytes.len() >= 5
    &&& chnl_has_channels(bytes[4]) ==> bytes.len() >= 6 && (bytes[5] != 0 ==> bytes.len() >= 14)
    &&& chnl_has_objects(bytes[4]) ==> 6 <= chnl_object_pos(bytes) + 1 <= bytes.len() && (chnl_has_channels(bytes[4]) && bytes[5] == 0 ==> bytes.len() >= 7)
}

/// Whether `l` is the layout of the payload `bytes`, the explicit positions
/// being `data` of it.
pub open spec fn chnl_layout_matches<T>(bytes: Seq<u8>, l: Option<ChannelLayout<T>>, data: spec_fn(T) -> Seq<u8>) -> bool {
    if chnl_has_channels(bytes[4]) {
        match l {
            Some(ChannelLayout::Explicit(d)) => bytes[5] == 0 && data(d) == bytes.subrange(6, if chnl_has_objects(bytes[4]) { bytes.len() - 1 } else { bytes.len() as int }),
            Some(ChannelLayout::Predefined { defined_layout, omitted_channels_map }) => bytes[5] != 0 && defined_layout == bytes[5] && omitted_channels_map == be64(bytes, 6),
            None => false,
        }
    } else {
        l is None
    }
}

/// Channel Layout Box (`chnl`) over a byte slice.
#[derive(Debug, Clone)]
pub struct ChnlBoxView<'a> {
    /// Box version.
    pub version: u8,
    /// Box flags.
    pub flags: ChnlFlags,
    /// Bit 0: a channel layout follows; bit 1: an object count follows.
    pub stream_structure: u8,
    /// The channel layout, when the stream structure marks one.
    pub channel_layout: Option<ChannelLayout<&'a [u8]>>,
    /// The object count, when the stream structure marks one.
    pub object_count: Option<u8>,
}

impl<'a> ChnlBoxView<'a> {
    /// An owned copy of this box.
    pub fn to_owned(&self) -> (r: ChnlBox)
        ensures
            r.version == self.version,
            r.flags == self.flags,
            r.stream_structure == self.stream_structure,
            r.object_count == self.object_count,
            layout_same(self.channel_layout, r.channel_layout),
    {
        ChnlBox::from(self)
    }
}

/// Whether two channel layouts agree, the positions of the one in a slice and
/// of the other in a vector.
pub open spec fn layout_same(a: Option<ChannelLayout<&[u8]>>, b: Option<ChannelLayout<Vec<u8>>>) -> bool {
    match (a, b) {
        (None, None) => true,
        (Some(ChannelLayout::Explicit(x)), Some(ChannelLayout::Explicit(y))) => x@ == y@,
        (Some(ChannelLayout::Predefined { defined_layout: d1, omitted_channels_map: m1 }), Some(ChannelLayout::Predefined { defined_layout: d2, omitted_channels_map: m2 })) =>
            d1 == d2 && m1 == m2,
        _ => false,
    }
}

impl BoxCodec for ChnlBoxView<'_> {
    open spec fn spec_boxtype(&self) -> BoxType {
        BoxType::CHNL
    }

    fn boxtype(&self) -> (r: BoxType) {
        BoxType::CHNL
    }
}

impl<'de> BoxDecode<'de> for ChnlBoxView<'de> {
    open spec fn spec_accepts(bytes: Seq<u8>) -> bool {
        chnl_accepts(bytes)
    }

    open spec fn spec_decodes(bytes: Seq<u8>, v: Self) -> bool {
        &&& v.version == bytes[0]
        &&& v.flags.0 == be24(bytes, 1)
        &&& v.stream_structure == bytes[4]
        &&& chnl_layout_matches(bytes, v.channel_layout, |d: &'de [u8]| d@)
        &&& v.object_count == (if chnl_has_objects(bytes[4]) { Some(bytes[chnl_object_pos(bytes)]) } else { None::<u8> })
    }

    fn decode(bytes: &'de [u8]) -> (r: Result<Self, Error>) {
        assert(Self::spec_accepts(bytes@) == chnl_accepts(bytes@));
        assert(forall|v: Self| #[trigger] Self::spec_decodes(bytes@, v) == (
            v.version == bytes@[0]
            && v.flags.0 == be24(bytes@, 1)
            && v.stream_structure == bytes@[4]
            && chnl_layout_matches(bytes@, v.channel_layout, |d: &'de [u8]| d@)
            && v.object_count == (if chnl_has_objects(bytes@[4]) { Some(bytes@[chnl_object_pos(bytes@)]) } else { None::<u8> })));
        let mut cur = ReadCursor::new(bytes);
        let version = cur.read_u8()?;
        let flags = BoxFlags(cur.read_u24_be()?);
        let stream_structure = cur.read_u8()?;
        let has_channels = stream_structure % 2 == 1;
        let has_objects = (stream_structure / 2) % 2 == 1;
        let channel_layout = if has_channels {
            let defined_layout = cur.read_u8()?;
            if defined_layout == 0 {
                let remaining = cur.remaining();
                let data_len = if has_objects {
                    if remaining == 0 { 0 } else { remaining - 1 }
                } else {
                    remaining
                };
                let data = cur.take(data_len)?;
                Some(ChannelLayout::Explicit(data))
            } else {
                let omitted_channels_map = cur.read_u64_be()?;
                Some(ChannelLayout::Predefined { defined_layout, omitted_channels_map })
            }
        } else {
            None
        };
        let object_count = if has_objects {
            Some(cur.read_u8()?)
        } else {
            None
        };
        Ok(ChnlBoxView { version, flags, stream_structure, channel_layout, object_count })
    }
}

/// Channel Layout Box (`chnl`) with explicit positions in a vector.
#[derive(Debug, Clone)]
pub struct ChnlBox {
    /// Box version.
    pub version: u8,
    /// Box flags.
    pub flags: ChnlFlags,
    /// Bit 0: a channel layout follows; bit 1: an object count follows.
    pub stream_structure: u8,
    /// The channel layout.
    pub channel_layout: Option<ChannelLayout<Vec<u8>>>,
    /// The object count.
    pub object_count: Option<u8>,
}

impl Default for ChnlBox {
    fn default() -> (r: ChnlBox)
        ensures
            r.version == 0,
            r.flags.0 == 0,
            r.stream_structure == 0,
            r.channel_layout is None,
            r.object_count is None,
    {
        ChnlBox { version: 0, flags: BoxFlags(0), stream_structure: 0, channel_layout: None, object_count: None }
    }
}

impl ChnlBox {
    /// The owned box holding the fields of a view.
    pub fn from(view: &ChnlBoxView<'_>) -> (r: ChnlBox)
        ensures
            r.version == view.version,
            r.flags == view.flags,
            r.stream_structure == view.stream_structure,
            r.object_count == view.object_count,
            layout_same(view.channel_layout, r.channel_layout),
    {
        let channel_layout = match &view.channel_layout {
            None => None,
            Some(ChannelLayout::Explicit(data)) => Some(ChannelLayout::Explicit(vstd::slice::slice_to_vec(data))),
            Some(ChannelLayout::Predefined { defined_layout, omitted_channels_map }) => Some(
                ChannelLayout::Predefined { defined_layout: *defined_layout, omitted_channels_map: *omitted_channels_map },
            ),
        };
        ChnlBox { version: view.version, flags: view.flags, stream_structure: view.stream_structure, channel_layout, object_count: view.object_count }
    }
}

impl BoxCodec for ChnlBox {
    open spec fn spec_boxtype(&self) -> BoxType {
        BoxType::CHNL
    }

    fn boxtype(&self) -> (r: BoxType) {
        BoxType::CHNL
    }
}

impl<'de> BoxDecode<'de> for ChnlBox {
    open spec fn spec_accepts(bytes: Seq<u8>) -> bool {
        chnl_accepts(bytes)
    }

    open spec fn spec_decodes(bytes: Seq<u8>, v: Self) -> bool {
        &&& v.version == bytes[0]
        &&& v.flags.0 == be24(bytes, 1)
        &&& v.stream_structure == bytes[4]
        &&& chnl_layout_matches(bytes, v.channel_layout, |d: Vec<u8>| d@)
        &&& v.object_count == (if chnl_has_objects(bytes[4]) { Some(bytes[chnl_object_pos(bytes)]) } else { None::<u8> })
    }

    fn decode(bytes: &'de [u8]) -> (r: Result<Self, Error>) {
        let view = ChnlBoxView::decode(bytes)?;
        Ok(ChnlBox::from(&view))
    }
}

/// The bytes of a channel layout.
pub open spec fn chnl_layout_bytes(l: Option<ChannelLayout<Vec<u8>>>) -> Seq<u8> {
    match l {
        None => Seq::empty(),
        Some(ChannelLayout::Explicit(d)) => seq![0u8] + d@,
        Some(ChannelLayout::Predefined { defined_layout, omitted_channels_map }) => seq![defined_layout] + u64_bytes(omitted_channels_map),
    }
}

impl ChnlBox {
    /// The length of the payload, or `usize::MAX` when it does not fit.
    fn total_len(&self) -> (r: usize)
        ensures
            r < usize::MAX ==> r == self.spec_encode().len(),
            r == usize::MAX ==> self.spec_encode().len() >= usize::MAX,
    {
        let lay: usize = match &self.channel_layout {
            None => 0,
            Some(ChannelLayout::Explicit(d)) => {
                if d.len() > usize::MAX - 7 {
                    return usize::MAX;
                }
                1 + d.len()
            },
            Some(ChannelLayout::Predefined { .. }) => 9,
        };
        let obj: usize = if self.object_count.is_some() { 1 } else { 0 };
        5 + lay + obj
    }

}

impl BoxEncode for ChnlBox {
    open spec fn spec_encode(&self) -> Seq<u8> {
        seq![self.version] + u24_bytes(self.flags.0) + seq![self.stream_structure] + chnl_layout_bytes(self.channel_layout)
            + (match self.object_count { Some(c) => seq![c], None => Seq::empty() })
    }

    open spec fn spec_encodable(&self) -> bool {
        self.spec_encode().len() < usize::MAX
    }

    fn encoded_len(&self) -> (r: usize) {
        self.total_len()
    }

    fn encode_into(&self, bytes: &mut [u8]) -> (r: Result<usize, Error>) {
        let ghost s0 = bytes@;
        let need = self.total_len();
        if bytes.len() < need || need == usize::MAX {
            return Err(short_buffer(need, bytes.len()));
        }
        let p = put_u8(bytes, 0, self.version)?;
        let p = put_u24(bytes, p, self.flags.0)?;
        proof {
            lemma_splice_concat(s0, 0, seq![self.version], u24_bytes(self.flags.0));
        }
        let ghost a = seq![self.version] + u24_bytes(self.flags.0);
        let p = put_u8(bytes, p, self.stream_structure)?;
        proof {
            lemma_splice_concat(s0, 0, a, seq![self.stream_structure]);
            a = a + seq![self.stream_structure];
        }
        let p = match &self.channel_layout {
            None => p,
            Some(ChannelLayout::Explicit(d)) => {
                let q = put_u8(bytes, p, 0)?;
                proof {
                    lemma_splice_concat(s0, 0, a, seq![0u8]);
                }
                let q = put_slice(bytes, q, d.as_slice())?;
                proof {
                    lemma_splice_concat(s0, 0, a + seq![0u8], d@);
                }
                q
            },
            Some(ChannelLayout::Predefined { defined_layout, omitted_channels_map }) => {
                let q = put_u8(bytes, p, *defined_layout)?;
                proof {
                    lemma_splice_concat(s0, 0, a, seq![*defined_layout]);
                }
                let q = put_u64(bytes, q, *omitted_channels_map)?;
                proof {
                    lemma_splice_concat(s0, 0, a + seq![*defined_layout], u64_bytes(*omitted_channels_map));
                }
                q
            },
        };
        proof {
            assert(a + chnl_layout_bytes(self.channel_layout) =~= (match self.channel_layout {
                None => a,
                Some(ChannelLayout::Explicit(d)) => a + seq![0u8] + d@,
                Some(ChannelLayout::Predefined { defined_layout, omitted_channels_map }) => a + seq![defined_layout] + u64_bytes(omitted_channels_map),
            }));
            a = a + chnl_layout_bytes(self.channel_layout);
        }
        match self.object_count {
            Some(c) => {
                let q = put_u8(bytes, p, c)?;
                proof {
                    lemma_splice_concat(s0, 0, a, seq![c]);
                    assert(a + seq![c] =~= self.spec_encode());
                }
                Ok(q)
            },
            None => {
                assert(a =~= self.spec_encode());
                Ok(p)
            },
        }
    }
}

/// Decoding the encoding of a `chnl` box gives the box back, when its stream
/// structure marks exactly the parts it has and a predefined layout code is
/// not 0.
pub proof fn lemma_chnl_roundtrip(b: ChnlBox)
    requires
        b.flags.wf(),
        b.spec_encodable(),
        chnl_has_channels(b.stream_structure) == (b.channel_layout is Some),
        chnl_has_objects(b.stream_structure) == (b.object_count is Some),
        b.channel_layout matches Some(ChannelLayout::Predefined { defined_layout, .. }) ==> defined_layout != 0,
    ensures
        ChnlBox::spec_accepts(b.spec_encode()),
        ChnlBox::spec_decodes(b.spec_encode(), b),
{
    let e = b.spec_encode();
    let lay = chnl_layout_bytes(b.channel_layout);
    let obj = match b.object_count { Some(c) => seq![c], None => Seq::<u8>::empty() };
    assert(e[0] == b.version);
    lemma_be24_at(seq![b.version], b.flags.0, seq![b.stream_structure] + lay + obj);
    assert(e =~= seq![b.version] + u24_bytes(b.flags.0) + (seq![b.stream_structure] + lay + obj));
    assert(e[4] == b.stream_structure);
    let pre = seq![b.version] + u24_bytes(b.flags.0) + seq![b.stream_structure];
    assert(e =~= pre + lay + obj);
    match b.channel_layout {
        Some(ChannelLayout::Explicit(d)) => {
            assert(e[5] == 0);
            assert(e.subrange(6, if chnl_has_objects(e[4]) { e.len() - 1 } else { e.len() as int }) =~= d@);
        },
        Some(ChannelLayout::Predefined { defined_layout, omitted_channels_map }) => {
            assert(e[5] == defined_layout);
            lemma_be64_at(pre + seq![defined_layout], omitted_channels_map, obj);
            assert(e =~= pre + seq![defined_layout] + u64_bytes(omitted_channels_map) + obj);
        },
        None => {},
    }
    match b.object_count {
        Some(c) => {
            assert(e[e.len() - 1] == c);
        },
        None => {},
    }
}

} // verus!
