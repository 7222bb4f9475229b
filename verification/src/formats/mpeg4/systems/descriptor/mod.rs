//! MPEG-4 Systems descriptors (ISO/IEC 14496-1, 8.3): a tag byte, the size of
//! the instance in one to four bytes of seven bits each (every byte but the
//! last with its high bit set), then the instance.
use vstd::prelude::*;

use crate::cursor::{splice, put_u8, put_slice, lemma_splice_concat};
use crate::error::{Error, ErrorKind};




verus! {

/// The tag of a descriptor.
#[derive(Debug, Clone, Copy, PartialEq, Eq, Structural)]
pub struct Tag(pub u8);

impl Tag {
    /// The tag of an ES Descriptor (0x03).
    pub fn es_descr() -> (r: Tag)
        ensures
            r.0 == 0x03,
    {
        Tag(0x03)
    }

    /// The tag of a Decoder Config Descriptor (0x04).
    pub fn decoder_config_descr() -> (r: Tag)
        ensures
            r.0 == 0x04,
    {
        Tag(0x04)
    }

    /// The tag of a Decoder Specific Info descriptor (0x05).
    pub fn decoder_specific_info() -> (r: Tag)
        ensures
            r.0 == 0x05,
    {
        Tag(0x05)
    }

    /// The tag of an SL Config Descriptor (0x06).
    pub fn sl_config_descr() -> (r: Tag)
        ensures
            r.0 == 0x06,
    {
        Tag(0x06)
    }
}

/// The value of the first `k` bytes of the size field `s`: seven bits from
/// each, most significant first.
pub open spec fn size_value(s: Seq<u8>, k: int) -> int
    decreases k,
{
    if k <= 0 {
        0
    } else {
        size_value(s, k - 1) * 128 + (s[k - 1] % 128)
    }
}

/// The number of bytes of the size field at the start of `s`: up to and
/// including the first byte below 0x80, at most four; `None` when it is
/// truncated or would take more than four bytes.
pub open spec fn size_field_len(s: Seq<u8>) -> Option<int> {
    if s.len() >= 1 && s[0] < 128 {
        Some(1)
    } else if s.len() >= 2 && s[0] >= 128 && s[1] < 128 {
        Some(2)
    } else if s.len() >= 3 && s[0] >= 128 && s[1] >= 128 && s[2] < 128 {
        Some(3)
    } else if s.len() >= 4 && s[0] >= 128 && s[1] >= 128 && s[2] >= 128 && s[3] < 128 {
        Some(4)
    } else {
        None
    }
}

/// The length of the header (tag and size field) of the descriptor at the start of `s`.
pub open spec fn spec_descr_header_len(s: Seq<u8>) -> int {
    1 + size_field_len(s.skip(1))->0
}

/// The total length of the descriptor at the start of `s`, or `None` when its
/// header is malformed or its instance runs past the end of `s`.
pub open spec fn spec_descr_len(s: Seq<u8>) -> Option<int> {
    if s.len() < 1 {
        None
    } else {
        match size_field_len(s.skip(1)) {
            None => None,
            Some(k) => {
                let n = 1 + k + size_value(s.skip(1), k);
                if n <= s.len() {
                    Some(n)
                } else {
                    None
                }
            },
        }
    }
}

/// A descriptor takes at least its header.
pub proof fn lemma_descr_len_bounds(s: Seq<u8>)
    ensures
        spec_descr_len(s) matches Some(n) ==> 2 <= spec_descr_header_len(s) <= n <= s.len(),
{
    if spec_descr_len(s) is Some {
        let k = size_field_len(s.skip(1))->0;
        lemma_size_value_nonneg(s.skip(1), k);
    }
}

/// A size value is never negative.
pub proof fn lemma_size_value_nonneg(s: Seq<u8>, k: int)
    ensures
        size_value(s, k) >= 0,
    decreases k,
{
    if k > 0 {
        lemma_size_value_nonneg(s, k - 1);
    }
}

/// The consecutive descriptors at the start of `s` (their whole bytes), up to
/// the first malformed one.
pub open spec fn spec_descriptors(s: Seq<u8>) -> Seq<Seq<u8>>
    decreases s.len(),
{
    if s.len() == 0 {
        Seq::empty()
    } else {
        match spec_descr_len(s) {
            None => Seq::empty(),
            Some(n) => if n >= 2 {
                seq![s.take(n)] + spec_descriptors(s.skip(n))
            } else {
                Seq::empty()
            },
        }
    }
}

/// Whether every descriptor in `s` parses.
pub open spec fn spec_descriptors_ok(s: Seq<u8>) -> bool
    decreases s.len(),
{
    if s.len() == 0 {
        true
    } else {
        match spec_descr_len(s) {
            None => false,
            Some(n) => if n >= 2 {
                spec_descriptors_ok(s.skip(n))
            } else {
                false
            },
        }
    }
}

/// The tag of the whole descriptor `d`.
pub open spec fn descr_tag(d: Seq<u8>) -> u8 {
    d[0]
}

/// The instance of the whole descriptor `d`.
pub open spec fn descr_instance(d: Seq<u8>) -> Seq<u8> {
    d.skip(spec_descr_header_len(d))
}

/// The result of looking for a descriptor with a given tag.
pub enum DescrLookup {
    /// The first descriptor with the tag, with this instance.
    Found(Seq<u8>),
    /// Every descriptor parsed and none has the tag.
    Missing,
    /// A malformed descriptor came before any with the tag.
    Malformed,
}

/// Looks through the consecutive descriptors of `s` for the first with tag `tag`.
pub open spec fn spec_find_descr(s: Seq<u8>, tag: u8) -> DescrLookup
    decreases s.len(),
{
    if s.len() == 0 {
        DescrLookup::Missing
    } else {
        match spec_descr_len(s) {
            None => DescrLookup::Malformed,
            Some(n) => if s[0] == tag {
                DescrLookup::Found(s.subrange(spec_descr_header_len(s), n))
            } else if n >= 2 {
                spec_find_descr(s.skip(n), tag)
            } else {
                DescrLookup::Malformed
            },
        }
    }
}

/// A descriptor in a byte slice: its tag and its instance.
#[derive(Debug, Clone, Copy)]
pub struct RawDescriptorRef<'a> {
    /// The tag.
    pub tag: Tag,
    /// The instance.
    pub instance: &'a [u8],
}

impl<'a> RawDescriptorRef<'a> {
    /// The tag.
    pub fn tag(&self) -> (r: Tag)
        ensures
            r == self.tag,
    {
        self.tag
    }

    /// The instance.
    pub fn instance(&self) -> (r: &'a [u8])
        ensures
            r@ == self.instance@,
    {
        self.instance
    }

    /// The instance, consuming the descriptor.
    pub fn into_instance(self) -> (r: &'a [u8])
        ensures
            r@ == self.instance@,
    {
        self.instance
    }

    /// An owned copy.
    pub fn to_owned(&self) -> (r: RawDescriptorOwned)
        ensures
            r.tag == self.tag,
            r.instance@ == self.instance@,
    {
        RawDescriptorOwned { tag: self.tag, instance: vstd::slice::slice_to_vec(self.instance) }
    }

    /// Parses the descriptor at the start of `s`.
    pub fn parse(s: &'a [u8]) -> (r: Result<(RawDescriptorRef<'a>, usize), Error>)
        ensures
            (r is Ok) == (spec_descr_len(s@) is Some),
            r matches Ok((d, n)) ==> {
                &&& n == spec_descr_len(s@)->0
                &&& d.tag.0 == s@[0]
                &&& d.instance@ == s@.subrange(spec_descr_header_len(s@), n as int)
            },
    {
        let ghost t = s@.skip(1);
        if s.len() < 2 {
            return Err(Error::new(ErrorKind::NotEnoughBytes { expected: 2, remaining: s.len() }));
        }
        let tag = Tag(s[0]);
        let b0 = s[1];
        let mut size: usize = (b0 % 128) as usize;
        let mut k: usize = 1;
        assert(t[0] == b0);
        assert(size_value(t, 1) == b0 % 128) by {
            assert(size_value(t, 0) == 0);
        }
        if b0 >= 128 {
            if s.len() < 3 {
                return Err(Error::new(ErrorKind::NotEnoughBytes { expected: 3, remaining: s.len() }));
            }
            let b1 = s[2];
            assert(t[1] == b1);
            size = size * 128 + (b1 % 128) as usize;
            k = 2;
            if b1 >= 128 {
                if s.len() < 4 {
                    return Err(Error::new(ErrorKind::NotEnoughBytes { expected: 4, remaining: s.len() }));
                }
                let b2 = s[3];
                assert(t[2] == b2);
                size = size * 128 + (b2 % 128) as usize;
                k = 3;
                if b2 >= 128 {
                    if s.len() < 5 {
                        return Err(Error::new(ErrorKind::NotEnoughBytes { expected: 5, remaining: s.len() }));
                    }
                    let b3 = s[4];
                    assert(t[3] == b3);
                    if b3 >= 128 {
                        return Err(Error::new(ErrorKind::Other { description: "descriptor size field longer than four bytes" }));
                    }
                    size = size * 128 + (b3 % 128) as usize;
                    k = 4;
                }
            }
        }
        assert(size_field_len(t) == Some(k as int));
        assert(size == size_value(t, k as int)) by {
            reveal_with_fuel(size_value, 5);
        }
        let avail = s.len() - 1 - k;
        if size > avail {
            return Err(Error::new(ErrorKind::NotEnoughBytes { expected: size, remaining: avail }));
        }
        let n = 1 + k + size;
        let instance = &s[1 + k..n];
        Ok((RawDescriptorRef { tag, instance }, n))
    }
}

/// The number of bytes of the shortest size field for `n`.
pub open spec fn size_len(n: int) -> int {
    if n < 0x80 {
        1
    } else if n < 0x4000 {
        2
    } else if n < 0x20_0000 {
        3
    } else {
        4
    }
}

/// The shortest size field for `n` (below 2^28).
pub open spec fn size_bytes(n: int) -> Seq<u8> {
    if n < 0x80 {
        seq![n as u8]
    } else if n < 0x4000 {
        seq![(n / 0x80 + 0x80) as u8, (n % 0x80) as u8]
    } else if n < 0x20_0000 {
        seq![(n / 0x4000 + 0x80) as u8, ((n / 0x80) % 0x80 + 0x80) as u8, (n % 0x80) as u8]
    } else {
        seq![(n / 0x20_0000 + 0x80) as u8, ((n / 0x4000) % 0x80 + 0x80) as u8, ((n / 0x80) % 0x80 + 0x80) as u8, (n % 0x80) as u8]
    }
}

/// A size of instance that can be written (below 2^28).
#[derive(Debug, Clone, Copy, PartialEq, Eq, Structural)]
pub struct SizeOfInstance(pub u32);

impl SizeOfInstance {
    /// The size `v`, when it fits in four bytes of seven bits.
    pub fn from_u32(v: u32) -> (r: Option<SizeOfInstance>)
        ensures
            r is Some == (v < 0x1000_0000),
            r matches Some(x) ==> x.0 == v,
    {
        if v < 0x1000_0000 {
            Some(SizeOfInstance(v))
        } else {
            None
        }
    }

    /// The shortest size field for this size, in the first bytes of the array,
    /// and how many bytes it takes.
    pub fn to_bytes(&self) -> (r: ([u8; 4], usize))
        requires
            self.0 < 0x1000_0000,
        ensures
            r.1 == size_len(self.0 as int),
            r.0@.take(r.1 as int) == size_bytes(self.0 as int),
    {
        let n = self.0;
        if n < 0x80 {
            let a = [n as u8, 0, 0, 0];
            assert(a@.take(1) =~= size_bytes(n as int));
            (a, 1)
        } else if n < 0x4000 {
            let a = [(n / 0x80 + 0x80) as u8, (n % 0x80) as u8, 0, 0];
            assert(a@.take(2) =~= size_bytes(n as int));
            (a, 2)
        } else if n < 0x20_0000 {
            let a = [(n / 0x4000 + 0x80) as u8, ((n / 0x80) % 0x80 + 0x80) as u8, (n % 0x80) as u8, 0];
            assert(a@.take(3) =~= size_bytes(n as int));
            (a, 3)
        } else {
            let a = [(n / 0x20_0000 + 0x80) as u8, ((n / 0x4000) % 0x80 + 0x80) as u8, ((n / 0x80) % 0x80 + 0x80) as u8, (n % 0x80) as u8];
            assert(a@ =~= size_bytes(n as int));
            assert(a@.take(4) =~= a@);
            (a, 4)
        }
    }
}

/// The shortest size field of `n` reads back as `n`, with its length.
pub proof fn lemma_size_roundtrip(n: int, rest: Seq<u8>)
    requires
        0 <= n < 0x1000_0000,
    ensures
        size_field_len(size_bytes(n) + rest) == Some(size_len(n)),
        size_value(size_bytes(n) + rest, size_len(n)) == n,
        size_bytes(n).len() == size_len(n),
{
    let s = size_bytes(n) + rest;
    reveal_with_fuel(size_value, 5);
    if n < 0x80 {
        assert(s[0] == n as u8);
    } else if n < 0x4000 {
        assert(s[0] == (n / 0x80 + 0x80) as u8);
        assert(s[1] == (n % 0x80) as u8);
    } else if n < 0x20_0000 {
        assert(s[0] == (n / 0x4000 + 0x80) as u8);
        assert(s[1] == ((n / 0x80) % 0x80 + 0x80) as u8);
        assert(s[2] == (n % 0x80) as u8);
    } else {
        assert(s[0] == (n / 0x20_0000 + 0x80) as u8);
        assert(s[1] == ((n / 0x4000) % 0x80 + 0x80) as u8);
        assert(s[2] == ((n / 0x80) % 0x80 + 0x80) as u8);
        assert(s[3] == (n % 0x80) as u8);
    }
}

/// The bytes of a descriptor with tag `tag` and instance `instance`: the
/// tag, the shortest size field, then the instance.
pub open spec fn descr_bytes(tag: u8, instance: Seq<u8>) -> Seq<u8> {
    seq![tag] + size_bytes(instance.len() as int) + instance
}

/// A descriptor held in memory: its tag and its instance.
#[derive(Debug, Clone)]
pub struct RawDescriptorOwned {
    /// The tag.
    pub tag: Tag,
    /// The instance.
    pub instance: Vec<u8>,
}

impl RawDescriptorOwned {
    /// The bytes this descriptor is written as.
    pub open spec fn spec_bytes(&self) -> Seq<u8> {
        descr_bytes(self.tag.0, self.instance@)
    }

    /// Whether the instance is short enough for a size field.
    pub open spec fn spec_writable(&self) -> bool {
        self.instance@.len() < 0x1000_0000
    }

    /// The tag.
    pub fn tag(&self) -> (r: Tag)
        ensures
            r == self.tag,
    {
        self.tag
    }

    /// The instance.
    pub fn instance(&self) -> (r: &[u8])
        ensures
            r@ == self.instance@,
    {
        self.instance.as_slice()
    }

    /// The length of the written descriptor (saturating at `usize::MAX`).
    pub fn len(&self) -> (r: usize)
        ensures
            self.spec_writable() ==> r == self.spec_bytes().len(),
    {
        let n = self.instance.len();
        let k: usize = if n < 0x80 {
            1
        } else if n < 0x4000 {
            2
        } else if n < 0x20_0000 {
            3
        } else {
            4
        };
        if n > usize::MAX - 1 - k {
            return usize::MAX;
        }
        1 + k + n
    }

    /// Writes the descriptor into `buf` at `pos`, and returns the position after it.
    pub fn write_at(&self, buf: &mut [u8], pos: usize) -> (r: Result<usize, Error>)
        requires
            pos <= old(buf)@.len(),
        ensures
            final(buf)@.len() == old(buf)@.len(),
            (r is Ok) == (self.spec_writable() && pos + self.spec_bytes().len() <= old(buf)@.len()),
            r matches Ok(p) ==> p == pos + self.spec_bytes().len() && final(buf)@ == splice(old(buf)@, pos as int, self.spec_bytes()),
    {
        let ghost s0 = buf@;
        let n = self.instance.len();
        if n >= 0x1000_0000 {
            return Err(Error::new(ErrorKind::Other { description: "descriptor instance too large" }));
        }
        let size = SizeOfInstance(n as u32);
        let (a, k) = size.to_bytes();
        if buf.len() - pos < 1 + k || buf.len() - pos - 1 - k < n {
            return Err(crate::codec::short_buffer(1 + k + n, buf.len() - pos));
        }
        let p = put_u8(buf, pos, self.tag.0)?;
        let field = &a.as_slice()[0..k];
        assert(field@ =~= size_bytes(n as int));
        let p = put_slice(buf, p, field)?;
        proof {
            lemma_splice_concat(s0, pos as int, seq![self.tag.0], size_bytes(n as int));
        }
        let p = put_slice(buf, p, self.instance.as_slice())?;
        proof {
            lemma_splice_concat(s0, pos as int, seq![self.tag.0] + size_bytes(n as int), self.instance@);
        }
        Ok(p)
    }

    /// Writes the descriptor at the start of `buf`, and returns its length.
    pub fn write(&self, buf: &mut [u8]) -> (r: Result<usize, Error>)
        ensures
            final(buf)@.len() == old(buf)@.len(),
            (r is Ok) == (self.spec_writable() && self.spec_bytes().len() <= old(buf)@.len()),
            r matches Ok(p) ==> p == self.spec_bytes().len() && final(buf)@ == splice(old(buf)@, 0, self.spec_bytes()),
    {
        self.write_at(buf, 0)
    }
}

/// The bytes of a sequence of descriptors, one after another.
pub open spec fn descrs_bytes(ds: Seq<RawDescriptorOwned>) -> Seq<u8>
    decreases ds.len(),
{
    if ds.len() == 0 {
        Seq::empty()
    } else {
        descrs_bytes(ds.drop_last()) + ds.last().spec_bytes()
    }
}

/// Whether every descriptor of a sequence can be written.
pub open spec fn descrs_writable(ds: Seq<RawDescriptorOwned>) -> bool {
    forall|i: int| 0 <= i < ds.len() ==> #[trigger] ds[i].spec_writable()
}

/// The bytes of the first `i + 1` descriptors are those of the first `i` and then descriptor `i`.
pub proof fn lemma_descrs_prefix(ds: Seq<RawDescriptorOwned>, i: int)
    requires
        0 <= i < ds.len(),
    ensures
        descrs_bytes(ds.take(i + 1)) == descrs_bytes(ds.take(i)) + ds[i].spec_bytes(),
{
    assert(ds.take(i + 1).drop_last() =~= ds.take(i));
}

/// The bytes of the first descriptors are no longer than those of all of them.
pub proof fn lemma_descrs_prefix_len(ds: Seq<RawDescriptorOwned>, i: int)
    requires
        0 <= i <= ds.len(),
    ensures
        descrs_bytes(ds.take(i)).len() <= descrs_bytes(ds).len(),
    decreases ds.len() - i,
{
    if i < ds.len() {
        lemma_descrs_prefix_len(ds, i + 1);
        lemma_descrs_prefix(ds, i);
    } else {
        assert(ds.take(i) =~= ds);
    }
}

/// The length of a sequence of written descriptors (saturating at `usize::MAX`).
pub fn descrs_len(ds: &Vec<RawDescriptorOwned>) -> (r: usize)
    ensures
        descrs_writable(ds@) && descrs_bytes(ds@).len() <= usize::MAX ==> r == descrs_bytes(ds@).len(),
{
    let mut total: usize = 0;
    let mut i: usize = 0;
    proof {
        assert(ds@.take(0) =~= Seq::<RawDescriptorOwned>::empty());
    }
    while i < ds.len()
        invariant
            i <= ds@.len(),
            descrs_writable(ds@.take(i as int)) && descrs_bytes(ds@).len() <= usize::MAX ==> total == descrs_bytes(ds@.take(i as int)).len(),
        decreases ds@.len() - i,
    {
        proof {
            lemma_descrs_prefix(ds@, i as int);
            lemma_descrs_prefix_len(ds@, i + 1);
            assert(ds@.take(i + 1).take(i as int) =~= ds@.take(i as int));
            if descrs_writable(ds@.take(i + 1)) {
                assert(ds@.take(i + 1)[i as int] == ds@[i as int]);
                assert forall|j: int| 0 <= j < i implies #[trigger] ds@.take(i as int)[j].spec_writable() by {
                    assert(ds@.take(i as int)[j] == ds@.take(i + 1)[j]);
                }
            }
        }
        let n = ds[i].len();
        if n > usize::MAX - total {
            return usize::MAX;
        }
        total = total + n;
        i = i + 1;
    }
    assert(ds@.take(i as int) =~= ds@);
    total
}

/// Writes a sequence of descriptors into `buf` at `pos`, one after another.
pub fn write_descrs_at(buf: &mut [u8], pos: usize, ds: &Vec<RawDescriptorOwned>) -> (r: Result<usize, Error>)
    requires
        pos <= old(buf)@.len(),
    ensures
        final(buf)@.len() == old(buf)@.len(),
        (r is Ok) == (descrs_writable(ds@) && pos + descrs_bytes(ds@).len() <= old(buf)@.len()),
        r matches Ok(p) ==> p == pos + descrs_bytes(ds@).len() && final(buf)@ == splice(old(buf)@, pos as int, descrs_bytes(ds@)),
{
    let ghost s0 = buf@;
    let mut p = pos;
    let mut i: usize = 0;
    proof {
        assert(ds@.take(0) =~= Seq::<RawDescriptorOwned>::empty());
        assert(descrs_bytes(ds@.take(0)) =~= Seq::<u8>::empty());
        crate::cursor::lemma_splice_empty(s0, pos as int);
    }
    while i < ds.len()
        invariant
            s0 == old(buf)@,
            pos <= s0.len(),
            i <= ds@.len(),
            buf@.len() == s0.len(),
            forall|k: int| 0 <= k < i ==> #[trigger] ds@[k].spec_writable(),
            p == pos + descrs_bytes(ds@.take(i as int)).len(),
            p <= s0.len(),
            buf@ == splice(s0, pos as int, descrs_bytes(ds@.take(i as int))),
        decreases ds@.len() - i,
    {
        proof {
            lemma_descrs_prefix(ds@, i as int);
            lemma_descrs_prefix_len(ds@, i + 1);
        }
        let w = ds[i].write_at(buf, p);
        match w {
            Ok(q) => {
                proof {
                    lemma_splice_concat(s0, pos as int, descrs_bytes(ds@.take(i as int)), ds@[i as int].spec_bytes());
                }
                p = q;
            },
            Err(e) => {
                return Err(e);
            },
        }
        i = i + 1;
    }
    assert(ds@.take(i as int) =~= ds@);
    Ok(p)
}

/// An iterator over the consecutive descriptors of a byte slice.
#[derive(Debug, Clone, Copy)]
pub struct DescriptorIter<'a> {
    pub data: &'a [u8],
    pub pos: usize,
}

impl<'a> DescriptorIter<'a> {
    /// The bytes not visited yet.
    pub open spec fn rest(&self) -> Seq<u8> {
        self.data@.skip(self.pos as int)
    }

    /// An iterator over the descriptors of `data`.
    pub fn new(data: &'a [u8]) -> (r: DescriptorIter<'a>)
        ensures
            r.data@ == data@,
            r.pos == 0,
            r.rest() == data@,
    {
        let r = DescriptorIter { data, pos: 0 };
        assert(r.rest() =~= data@);
        r
    }

    /// The next descriptor: `None` at the end of the data, an error for a
    /// malformed descriptor (the position then stays where it is).
    pub fn next(&mut self) -> (r: Option<Result<RawDescriptorRef<'a>, Error>>)
        requires
            old(self).pos <= old(self).data@.len(),
        ensures
            final(self).data@ == old(self).data@,
            final(self).pos <= final(self).data@.len(),
            old(self).rest().len() == 0 ==> r is None && final(self).pos == old(self).pos,
            old(self).rest().len() > 0 && spec_descr_len(old(self).rest()) is None ==> (r matches Some(x) && x is Err)
                && final(self).pos == old(self).pos,
            old(self).rest().len() > 0 && spec_descr_len(old(self).rest()) is Some ==> {
                let n = spec_descr_len(old(self).rest())->0;
                &&& r matches Some(Ok(d))
                &&& d.tag.0 == descr_tag(old(self).rest().take(n))
                &&& d.instance@ == descr_instance(old(self).rest().take(n))
                &&& final(self).pos == old(self).pos + n
                &&& final(self).rest() == old(self).rest().skip(n)
            },
    {
        if self.pos >= self.data.len() {
            return None;
        }
        let rest = &self.data[self.pos..self.data.len()];
        assert(rest@ =~= self.rest());
        match RawDescriptorRef::parse(rest) {
            Ok((d, n)) => {
                proof {
                    lemma_descr_len_bounds(rest@);
                    let w = rest@.take(n as int);
                    let k = size_field_len(rest@.skip(1))->0;
                    assert(forall|j: int| 0 <= j < k ==> w.skip(1)[j] == rest@.skip(1)[j]);
                    assert(size_field_len(w.skip(1)) == size_field_len(rest@.skip(1)));
                    assert(d.instance@ =~= descr_instance(w));
                }
                let ghost old_rest = self.rest();
                self.pos = self.pos + n;
                assert(self.rest() =~= old_rest.skip(n as int));
                Some(Ok(d))
            },
            Err(e) => Some(Err(e)),
        }
    }
}

/// Looks through the consecutive descriptors of `content` for the first with
/// tag `tag`.
pub fn find_descr<'a>(content: &'a [u8], tag: u8) -> (r: Result<Option<RawDescriptorRef<'a>>, Error>)
    ensures
        match spec_find_descr(content@, tag) {
            DescrLookup::Found(inst) => r matches Ok(Some(d)) && d.tag.0 == tag && d.instance@ == inst,
            DescrLookup::Missing => r matches Ok(None),
            DescrLookup::Malformed => r is Err,
        },
{
    let mut it = DescriptorIter::new(content);
    loop
        invariant
            it.data@ == content@,
            it.pos <= content@.len(),
            spec_find_descr(it.rest(), tag) == spec_find_descr(content@, tag),
        decreases content@.len() - it.pos,
    {
        let ghost rest = it.rest();
        match it.next() {
            None => {
                return Ok(None);
            },
            Some(Err(e)) => {
                return Err(e);
            },
            Some(Ok(d)) => {
                proof {
                    lemma_descr_len_bounds(rest);
                }
                if d.tag.0 == tag {
                    proof {
                        let n = spec_descr_len(rest)->0;
                        assert(rest.take(n)[0] == rest[0]);
                        let w = rest.take(n);
                        let k = size_field_len(rest.skip(1))->0;
                        assert(forall|j: int| 0 <= j < k ==> w.skip(1)[j] == rest.skip(1)[j]);
                        assert(descr_instance(w) =~= rest.subrange(spec_descr_header_len(rest), n));
                    }
                    return Ok(Some(d));
                }
                proof {
                    assert(rest.take(spec_descr_len(rest)->0)[0] == rest[0]);
                }
            },
        }
    }
}

/// A descriptor written from its tag and instance parses back as them.
pub proof fn lemma_descr_roundtrip(tag: u8, instance: Seq<u8>, rest: Seq<u8>)
    requires
        instance.len() < 0x1000_0000,
    ensures
        spec_descr_len(descr_bytes(tag, instance) + rest) == Some(descr_bytes(tag, instance).len() as int),
        spec_descr_header_len(descr_bytes(tag, instance) + rest) == 1 + size_len(instance.len() as int),
        (descr_bytes(tag, instance) + rest)[0] == tag,
        (descr_bytes(tag, instance) + rest).subrange(1 + size_len(instance.len() as int), descr_bytes(tag, instance).len() as int) == instance,
{
    let n = instance.len() as int;
    let s = descr_bytes(tag, instance) + rest;
    lemma_size_roundtrip(n, instance + rest);
    assert(s.skip(1) =~= size_bytes(n) + (instance + rest));
    assert(s.subrange(1 + size_len(n), descr_bytes(tag, instance).len() as int) =~= instance);
}

/// The descriptors at the start of `s` continued by those of the rest are
/// the descriptors of `s`.
pub proof fn lemma_descriptors_step(s: Seq<u8>)
    requires
        s.len() > 0,
        spec_descr_len(s) is Some,
    ensures
        spec_descriptors(s) == seq![s.take(spec_descr_len(s)->0)] + spec_descriptors(s.skip(spec_descr_len(s)->0)),
        spec_descriptors_ok(s) == spec_descriptors_ok(s.skip(spec_descr_len(s)->0)),
{
    lemma_descr_len_bounds(s);
}

/// Whether the owned descriptor `o` holds the tag and instance of the whole descriptor `d`.
pub open spec fn owned_is(o: RawDescriptorOwned, d: Seq<u8>) -> bool {
    o.tag.0 == descr_tag(d) && o.instance@ == descr_instance(d)
}

/// Whether the owned descriptors `os` hold the descriptors `ds`, in order.
pub open spec fn all_owned(os: Seq<RawDescriptorOwned>, ds: Seq<Seq<u8>>) -> bool {
    &&& os.len() == ds.len()
    &&& forall|i: int| 0 <= i < ds.len() ==> #[trigger] owned_is(os[i], ds[i])
}

/// The last of the descriptors `ds` with tag `t`.
pub open spec fn last_tagged(ds: Seq<Seq<u8>>, t: u8) -> Option<Seq<u8>>
    decreases ds.len(),
{
    if ds.len() == 0 {
        None
    } else if descr_tag(ds.last()) == t {
        Some(ds.last())
    } else {
        last_tagged(ds.drop_last(), t)
    }
}

/// The descriptors of `ds` whose tag is none of `ts`, in order.
pub open spec fn untagged(ds: Seq<Seq<u8>>, ts: Seq<u8>) -> Seq<Seq<u8>>
    decreases ds.len(),
{
    if ds.len() == 0 {
        Seq::empty()
    } else if ts.contains(descr_tag(ds.last())) {
        untagged(ds.drop_last(), ts)
    } else {
        untagged(ds.drop_last(), ts).push(ds.last())
    }
}

/// One more descriptor at the end: the last with a tag and the others.
pub proof fn lemma_tagged_push(ds: Seq<Seq<u8>>, d: Seq<u8>, t: u8, ts: Seq<u8>)
    ensures
        last_tagged(ds.push(d), t) == (if descr_tag(d) == t { Some(d) } else { last_tagged(ds, t) }),
        untagged(ds.push(d), ts) == (if ts.contains(descr_tag(d)) { untagged(ds, ts) } else { untagged(ds, ts).push(d) }),
{
    assert(ds.push(d).drop_last() =~= ds);
    assert(ds.push(d).last() == d);
}

/// Whether `o` is the owned copy of the descriptor `d`, when there is one.
pub open spec fn opt_owned_is(o: Option<RawDescriptorOwned>, d: Option<Seq<u8>>) -> bool {
    match d {
        None => o is None,
        Some(x) => o matches Some(y) && owned_is(y, x),
    }
}

} // verus!
pub mod dec;
pub mod es;
