//! Downmix Instructions Box (`dmix`): how to mix an audio stream down to a
//! target layout, with 4-bit gain coefficients.
use vstd::prelude::*;

use crate::bytes::{be24, u24_bytes, lemma_be24_at};
use crate::codec::{BoxCodec, BoxDecode, BoxEncode, short_buffer};
use crate::cursor::{put_slice, put_u8, put_u24, lemma_splice_concat, ReadCursor};
use crate::error::{Error, ErrorKind};
use crate::flags::{BoxFlags, DmixFlags};
use crate::types::BoxType;

verus! {

/// A 4-bit downmix gain code; 15 means silence.
#[derive(Clone, Copy, PartialEq, Eq, Structural, Hash, Debug)]
pub struct DownmixCoefficient(pub u8);

/// The gain of the non-LFE coefficient `c` as text, in dB with one decimal,
/// `-inf dB` for silence.
pub open spec fn gain_label(c: u8) -> &'static str {
    if c == 0 {
        "0.0 dB"
    } else if c == 1 {
        "-0.5 dB"
    } else if c == 2 {
        "-1.0 dB"
    } else if c == 3 {
        "-1.5 dB"
    } else if c == 4 {
        "-2.0 dB"
    } else if c == 5 {
        "-2.5 dB"
    } else if c == 6 {
        "-3.0 dB"
    } else if c == 7 {
        "-3.5 dB"
    } else if c == 8 {
        "-4.0 dB"
    } else if c == 9 {
        "-4.5 dB"
    } else if c == 10 {
        "-5.0 dB"
    } else if c == 11 {
        "-5.5 dB"
    } else if c == 12 {
        "-6.0 dB"
    } else if c == 13 {
        "-7.5 dB"
    } else if c == 14 {
        "-9.0 dB"
    } else {
        "-inf dB"
    }
}

impl DownmixCoefficient {
    /// The silent coefficient (code 15).
    pub fn silence() -> (r: DownmixCoefficient)
        ensures
            r.0 == 0x0F,
    {
        DownmixCoefficient(0x0F)
    }

    /// The coefficient with the low four bits of `value`.
    pub fn new(value: u8) -> (r: DownmixCoefficient)
        ensures
            r.0 == value % 16,
    {
        DownmixCoefficient(value % 16)
    }

    /// The 4-bit code.
    pub fn raw(self) -> (r: u8)
        ensures
            r == self.0,
    {
        self.0
    }

    /// Whether this is the silent coefficient.
    pub fn is_silence(self) -> (r: bool)
        ensures
            r == (self.0 == 0x0F),
    {
        self.0 == 0x0F
    }

    /// The gain of a non-LFE channel as text, in dB with one decimal, or
    /// `-inf dB` for silence.
    pub fn display(self) -> (r: &'static str)
        requires
            self.0 < 16,
        ensures
            r == gain_label(self.0),
    {
        match self.0 {
            0 => "0.0 dB",
            1 => "-0.5 dB",
            2 => "-1.0 dB",
            3 => "-1.5 dB",
            4 => "-2.0 dB",
            5 => "-2.5 dB",
            6 => "-3.0 dB",
            7 => "-3.5 dB",
            8 => "-4.0 dB",
            9 => "-4.5 dB",
            10 => "-5.0 dB",
            11 => "-5.5 dB",
            12 => "-6.0 dB",
            13 => "-7.5 dB",
            14 => "-9.0 dB",
            _ => "-inf dB",
        }
    }
}

/// The coefficients packed in `data`, two per byte (high nibble first), for
/// a `target` by `base` matrix; fewer when the data runs out.
pub open spec fn downmix_coefficients(data: Seq<u8>, target: int, base: int) -> Seq<DownmixCoefficient> {
    let n: int = if target * base < 2 * data.len() { target * base } else { 2 * data.len() as int };
    Seq::new(n as nat, |i: int| if i % 2 == 0 {
        DownmixCoefficient((data[i / 2] / 16) as u8)
    } else {
        DownmixCoefficient((data[i / 2] % 16) as u8)
    })
}

/// A downmix matrix: the packed coefficients for a target channel count.
#[derive(Debug, Clone, PartialEq, Eq)]
pub struct DownmixMatrix<T> {
    /// The number of channels mixed down to.
    pub target_channel_count: u8,
    /// The packed coefficients.
    pub data: T,
}

/// Unpacks the coefficients of a `target` by `base` matrix from `data`.
fn unpack_coefficients(data: &[u8], target: u8, base: u16) -> (r: Vec<DownmixCoefficient>)
    ensures
        r@ == downmix_coefficients(data@, target as int, base as int),
{
    assert((target as u64) * (base as u64) <= 255 * 65535) by (nonlinear_arith)
        requires
            target <= 255,
            base <= 65535,
    ;
    let total: u64 = (target as u64) * (base as u64);
    let n: u64 = if (data.len() as u64) >= total {
        total
    } else if total < 2 * (data.len() as u64) {
        total
    } else {
        2 * (data.len() as u64)
    };
    let ghost avail: int = 2 * data@.len() as int;
    let mut out: Vec<DownmixCoefficient> = Vec::new();
    let mut i: u64 = 0;
    while i < n
        invariant
            n == (if total < avail { total as int } else { avail }),
            total == target * base,
            avail == 2 * data@.len(),
            i <= n,
            out@ == downmix_coefficients(data@, target as int, base as int).take(i as int),
        decreases n - i,
    {
        let b = data[(i / 2) as usize];
        let c = if i % 2 == 0 { DownmixCoefficient(b / 16) } else { DownmixCoefficient(b % 16) };
        out.push(c);
        i = i + 1;
        assert(out@ =~= downmix_coefficients(data@, target as int, base as int).take(i as int));
    }
    assert(downmix_coefficients(data@, target as int, base as int).take(i as int) =~= downmix_coefficients(data@, target as int, base as int));
    out
}

impl<'a> DownmixMatrix<&'a [u8]> {
    /// A matrix for `target_channel_count` channels with the packed `data`.
    pub fn new(target_channel_count: u8, data: &'a [u8]) -> (r: DownmixMatrix<&'a [u8]>)
        ensures
            r.target_channel_count == target_channel_count,
            r.data@ == data@,
    {
        DownmixMatrix { target_channel_count, data }
    }

    /// The number of channels mixed down to.
    pub fn target_channel_count(&self) -> (r: u8)
        ensures
            r == self.target_channel_count,
    {
        self.target_channel_count
    }

    /// The coefficients for a stream of `base_channel_count` channels.
    pub fn coefficients(&self, base_channel_count: u16) -> (r: Vec<DownmixCoefficient>)
        ensures
            r@ == downmix_coefficients(self.data@, self.target_channel_count as int, base_channel_count as int),
    {
        unpack_coefficients(self.data, self.target_channel_count, base_channel_count)
    }

    /// The packed coefficients.
    pub fn as_bytes(&self) -> (r: &'a [u8])
        ensures
            r@ == self.data@,
    {
        self.data
    }
}

impl DownmixMatrix<Vec<u8>> {
    /// A matrix for `target_channel_count` channels with the packed `data`.
    pub fn new(target_channel_count: u8, data: Vec<u8>) -> (r: DownmixMatrix<Vec<u8>>)
        ensures
            r.target_channel_count == target_channel_count,
            r.data@ == data@,
    {
        DownmixMatrix { target_channel_count, data }
    }

    /// The number of channels mixed down to.
    pub fn target_channel_count(&self) -> (r: u8)
        ensures
            r == self.target_channel_count,
    {
        self.target_channel_count
    }

    /// The coefficients for a stream of `base_channel_count` channels.
    pub fn coefficients(&self, base_channel_count: u16) -> (r: Vec<DownmixCoefficient>)
        ensures
            r@ == downmix_coefficients(self.data@, self.target_channel_count as int, base_channel_count as int),
    {
        unpack_coefficients(self.data.as_slice(), self.target_channel_count, base_channel_count)
    }

    /// The packed coefficients.
    pub fn as_bytes(&self) -> (r: &[u8])
        ensures
            r@ == self.data@,
    {
        self.data.as_slice()
    }
}

/// Downmix Instructions Box (`dmix`) over a byte slice.
#[derive(Debug, Clone)]
pub struct DmixBoxView<'a> {
    /// Box version.
    pub version: u8,
    /// Box flags.
    pub flags: DmixFlags,
    /// The target channel layout code.
    pub target_layout: u8,
    /// The number of target channels (7 bits).
    pub target_channel_count: u8,
    /// Whether the coefficients are carried in the stream instead of here.
    pub in_stream: bool,
    /// The identifier of this downmix (7 bits).
    pub downmix_id: u8,
    /// The coefficients, when they are carried here.
    pub coefficients: Option<DownmixMatrix<&'a [u8]>>,
}

impl<'a> DmixBoxView<'a> {
    /// An owned copy of this box.
    pub fn to_owned(&self) -> (r: DmixBox)
        ensures
            r.version == self.version,
            r.flags == self.flags,
            r.target_layout == self.target_layout,
            r.target_channel_count == self.target_channel_count,
            r.in_stream == self.in_stream,
            r.downmix_id == self.downmix_id,
            matrix_same(self.coefficients, r.coefficients),
    {
        DmixBox::from(self)
    }
}

/// Whether two optional matrices agree, the data of the one in a slice and of
/// the other in a vector.
pub open spec fn matrix_same(a: Option<DownmixMatrix<&[u8]>>, b: Option<DownmixMatrix<Vec<u8>>>) -> bool {
    match (a, b) {
        (None, None) => true,
        (Some(x), Some(y)) => x.target_channel_count == y.target_channel_count && x.data@ == y.data@,
        _ => false,
    }
}

impl BoxCodec for DmixBoxView<'_> {
    open spec fn spec_boxtype(&self) -> BoxType {
        BoxType::DMIX
    }

    fn boxtype(&self) -> (r: BoxType) {
        BoxType::DMIX
    }
}

impl<'de> BoxDecode<'de> for DmixBoxView<'de> {
    open spec fn spec_accepts(bytes: Seq<u8>) -> bool {
        bytes.len() >= 7
    }

    open spec fn spec_decodes(bytes: Seq<u8>, v: Self) -> bool {
        &&& v.version == bytes[0]
        &&& v.flags.0 == be24(bytes, 1)
        &&& v.target_layout == bytes[4]
        &&& v.target_channel_count == bytes[5] % 128
        &&& v.in_stream == (bytes[6] >= 128)
        &&& v.downmix_id == bytes[6] % 128
        &&& match v.coefficients {
            Some(m) => bytes[6] < 128 && m.target_channel_count == bytes[5] % 128 && m.data@ == bytes.skip(7),
            None => bytes[6] >= 128,
        }
    }

    fn decode(bytes: &'de [u8]) -> (r: Result<Self, Error>) {
        assert(Self::spec_accepts(bytes@) == (bytes@.len() >= 7));
        assert(forall|v: Self| #[trigger] Self::spec_decodes(bytes@, v) == (
            v.version == bytes@[0]
            && v.flags.0 == be24(bytes@, 1)
            && v.target_layout == bytes@[4]
            && v.target_channel_count == bytes@[5] % 128
            && v.in_stream == (bytes@[6] >= 128)
            && v.downmix_id == bytes@[6] % 128
            && match v.coefficients {
                Some(m) => bytes@[6] < 128 && m.target_channel_count == bytes@[5] % 128 && m.data@ == bytes@.skip(7),
                None => bytes@[6] >= 128,
            }));
        let mut cur = ReadCursor::new(bytes);
        let version = cur.read_u8()?;
        let flags = BoxFlags(cur.read_u24_be()?);
        let target_layout = cur.read_u8()?;
        let b1 = cur.read_u8()?;
        let target_channel_count = b1 % 128;
        let b2 = cur.read_u8()?;
        let in_stream = b2 >= 128;
        let downmix_id = b2 % 128;
        let coefficients = if !in_stream {
            let n = cur.remaining();
            let data = cur.take(n)?;
            assert(data@ =~= bytes@.skip(7));
            Some(DownmixMatrix { target_channel_count, data })
        } else {
            None
        };
        Ok(DmixBoxView { version, flags, target_layout, target_channel_count, in_stream, downmix_id, coefficients })
    }
}

/// Downmix Instructions Box (`dmix`) with its coefficients in a vector.
#[derive(Debug, Clone)]
pub struct DmixBox {
    /// Box version.
    pub version: u8,
    /// Box flags.
    pub flags: DmixFlags,
    /// The target channel layout code.
    pub target_layout: u8,
    /// The number of target channels (7 bits).
    pub target_channel_count: u8,
    /// Whether the coefficients are carried in the stream instead of here.
    pub in_stream: bool,
    /// The identifier of this downmix (7 bits).
    pub downmix_id: u8,
    /// The coefficients, when they are carried here.
    pub coefficients: Option<DownmixMatrix<Vec<u8>>>,
}

impl DmixBox {
    /// The owned box holding the fields of a view.
    pub fn from(view: &DmixBoxView<'_>) -> (r: DmixBox)
        ensures
            r.version == view.version,
            r.flags == view.flags,
            r.target_layout == view.target_layout,
            r.target_channel_count == view.target_channel_count,
            r.in_stream == view.in_stream,
            r.downmix_id == view.downmix_id,
            matrix_same(view.coefficients, r.coefficients),
    {
        let coefficients = match &view.coefficients {
            Some(m) => Some(DownmixMatrix { target_channel_count: m.target_channel_count, data: vstd::slice::slice_to_vec(m.data) }),
            None => None,
        };
        DmixBox {
            version: view.version,
            flags: view.flags,
            target_layout: view.target_layout,
            target_channel_count: view.target_channel_count,
            in_stream: view.in_stream,
            downmix_id: view.downmix_id,
            coefficients,
        }
    }
}

impl BoxCodec for DmixBox {
    open spec fn spec_boxtype(&self) -> BoxType {
        BoxType::DMIX
    }

    fn boxtype(&self) -> (r: BoxType) {
        BoxType::DMIX
    }
}

impl<'de> BoxDecode<'de> for DmixBox {
    open spec fn spec_accepts(bytes: Seq<u8>) -> bool {
        bytes.len() >= 7
    }

    open spec fn spec_decodes(bytes: Seq<u8>, v: Self) -> bool {
        &&& v.version == bytes[0]
        &&& v.flags.0 == be24(bytes, 1)
        &&& v.target_layout == bytes[4]
        &&& v.target_channel_count == bytes[5] % 128
        &&& v.in_stream == (bytes[6] >= 128)
        &&& v.downmix_id == bytes[6] % 128
        &&& match v.coefficients {
            Some(m) => bytes[6] < 128 && m.target_channel_count == bytes[5] % 128 && m.data@ == bytes.skip(7),
            None => bytes[6] >= 128,
        }
    }

    fn decode(bytes: &'de [u8]) -> (r: Result<Self, Error>) {
        let view = DmixBoxView::decode(bytes)?;
        Ok(DmixBox::from(&view))
    }
}

impl BoxEncode for DmixBox {
    open spec fn spec_encode(&self) -> Seq<u8> {
        seq![self.version] + u24_bytes(self.flags.0) + seq![self.target_layout, self.target_channel_count % 128,
            ((if self.in_stream { 128int } else { 0int }) + self.downmix_id % 128) as u8]
            + (match self.coefficients { Some(m) => m.data@, None => Seq::empty() })
    }

    open spec fn spec_encodable(&self) -> bool {
        self.spec_encode().len() <= usize::MAX
    }

    fn encoded_len(&self) -> (r: usize) {
        match &self.coefficients {
            Some(m) => if m.data.len() > usize::MAX - 7 { usize::MAX } else { 7 + m.data.len() },
            None => 7,
        }
    }

    fn encode_into(&self, bytes: &mut [u8]) -> (r: Result<usize, Error>) {
        let ghost s0 = bytes@;
        let n: usize = match &self.coefficients {
            Some(m) => m.data.len(),
            None => 0,
        };
        if bytes.len() < 7 || bytes.len() - 7 < n {
            return Err(short_buffer(7, bytes.len()));
        }
        let p = put_u8(bytes, 0, self.version)?;
        let p = put_u24(bytes, p, self.flags.0)?;
        proof {
            lemma_splice_concat(s0, 0, seq![self.version], u24_bytes(self.flags.0));
        }
        let ghost a = seq![self.version] + u24_bytes(self.flags.0);
        let b3: u8 = (if self.in_stream { 128u8 } else { 0u8 }) + self.downmix_id % 128;
        let p = put_u8(bytes, p, self.target_layout)?;
        proof {
            lemma_splice_concat(s0, 0, a, seq![self.target_layout]);
            a = a + seq![self.target_layout];
        }
        let p = put_u8(bytes, p, self.target_channel_count % 128)?;
        proof {
            lemma_splice_concat(s0, 0, a, seq![self.target_channel_count % 128]);
            a = a + seq![self.target_channel_count % 128];
        }
        let p = put_u8(bytes, p, b3)?;
        proof {
            lemma_splice_concat(s0, 0, a, seq![b3]);
            a = a + seq![b3];
        }
        match &self.coefficients {
            Some(m) => {
                let q = put_slice(bytes, p, m.data.as_slice())?;
                proof {
                    lemma_splice_concat(s0, 0, a, m.data@);
                    assert(a + m.data@ =~= self.spec_encode());
                }
                Ok(q)
            },
            None => {
                assert(a =~= self.spec_encode());
                Ok(p)
            },
        }
    }
}

/// Decoding the encoding of a `dmix` box gives the box back, when its 7-bit
/// fields fit and it carries a matrix for its target channel count exactly
/// when the coefficients are not in the stream.
pub proof fn lemma_dmix_roundtrip(b: DmixBox)
    requires
        b.flags.wf(),
        b.spec_encodable(),
        b.target_channel_count < 128,
        b.downmix_id < 128,
        b.in_stream == (b.coefficients is None),
        b.coefficients matches Some(m) ==> m.target_channel_count == b.target_channel_count,
    ensures
        DmixBox::spec_accepts(b.spec_encode()),
        DmixBox::spec_decodes(b.spec_encode(), b),
{
    let e = b.spec_encode();
    let tail = seq![b.target_layout, b.target_channel_count % 128, ((if b.in_stream { 128int } else { 0int }) + b.downmix_id % 128) as u8]
        + (match b.coefficients { Some(m) => m.data@, None => Seq::<u8>::empty() });
    lemma_be24_at(seq![b.version], b.flags.0, tail);
    assert(e =~= seq![b.version] + u24_bytes(b.flags.0) + tail);
    assert(e[6] == ((if b.in_stream { 128int } else { 0int }) + b.downmix_id) as u8);
    match b.coefficients {
        Some(m) => {
            assert(e.skip(7) =~= m.data@);
        },
        None => {},
    }
}

/// The layout of a `dmix` payload: what a view of `dmix` box decoded from
/// `bytes` holds, field by field, read at fixed offsets.
pub proof fn lemma_dmix_box_view_layout<'a>(bytes: Seq<u8>, v: DmixBoxView<'a>)
    requires
        DmixBoxView::spec_decodes(bytes, v),
    ensures
        v.version == bytes[0],
        v.flags.0 == be24(bytes, 1),
        v.target_layout == bytes[4],
        v.target_channel_count == bytes[5] % 128,
        v.in_stream == (bytes[6] >= 128),
        v.downmix_id == bytes[6] % 128,
        match v.coefficients { Some(m) => bytes[6] < 128 && m.target_channel_count == bytes[5] % 128 && m.data@ == bytes.skip(7), None => bytes[6] >= 128, },
{
}

/// The layout of a `dmix` payload: what an owned `dmix` box decoded from
/// `bytes` holds, field by field, read at fixed offsets.
pub proof fn lemma_dmix_box_layout(bytes: Seq<u8>, v: DmixBox)
    requires
        DmixBox::spec_decodes(bytes, v),
    ensures
        v.version == bytes[0],
        v.flags.0 == be24(bytes, 1),
        v.target_layout == bytes[4],
        v.target_channel_count == bytes[5] % 128,
        v.in_stream == (bytes[6] >= 128),
        v.downmix_id == bytes[6] % 128,
        match v.coefficients { Some(m) => bytes[6] < 128 && m.target_channel_count == bytes[5] % 128 && m.data@ == bytes.skip(7), None => bytes[6] >= 128, },
{
}

} // verus!
