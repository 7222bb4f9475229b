//! The fields that begin every sample entry of a Sample Description Box (`stsd`).
use vstd::prelude::*;

use crate::bytes::{be16, u16_bytes};
use crate::cursor::{ReadCursor, splice, put_zeros, put_u16, lemma_splice_concat};
use crate::error::Error;

pub mod audio;


verus! {

/// `n` zero bytes.
pub open spec fn zeros(n: nat) -> Seq<u8> {
    Seq::new(n, |i: int| 0u8)
}

/// Fields common to all sample entries: six reserved bytes, then the 1-based
/// index of the data reference (`dref` entry) that holds the samples.
#[derive(Debug, Clone, Copy)]
pub struct SampleEntry {
    /// Index (1-based) into the Data Reference Box (`dref`) of the track.
    pub data_reference_index: u16,
}

impl SampleEntry {
    /// The bytes of these fields.
    pub open spec fn spec_bytes(&self) -> Seq<u8> {
        zeros(6) + u16_bytes(self.data_reference_index)
    }

    /// The size of these fields in bytes.
    pub fn size() -> (r: usize)
        ensures
            r == 8,
    {
        8
    }

    /// Reads the fields: skips the reserved bytes, then reads the index.
    pub fn parse_in(cur: &mut ReadCursor<'_>) -> (r: Result<SampleEntry, Error>)
        requires
            old(cur).wf(),
        ensures
            final(cur).wf(),
            final(cur).bytes@ == old(cur).bytes@,
            old(cur).has(8) ==> old(cur).moved(final(cur), 8) && (r matches Ok(v)
                && v.data_reference_index == be16(old(cur).rest(), 6)),
            !old(cur).has(8) ==> r is Err,
    {
        let ghost s = old(cur).rest();
        cur.advance(6)?;
        let data_reference_index = cur.read_u16_be()?;
        proof {
            assert(be16(old(cur).bytes@, old(cur).pos + 6) == be16(s, 6));
        }
        Ok(SampleEntry { data_reference_index })
    }

    /// Writes the fields into `buf` at `pos`, and returns the position after them.
    pub fn write_in(&self, buf: &mut [u8], pos: usize) -> (r: Result<usize, Error>)
        requires
            pos <= old(buf)@.len(),
        ensures
            final(buf)@.len() == old(buf)@.len(),
            (r is Ok) == (pos + 8 <= old(buf)@.len()),
            r matches Ok(p) ==> p == pos + 8 && final(buf)@ == splice(old(buf)@, pos as int, self.spec_bytes()),
    {
        let ghost s0 = buf@;
        if buf.len() - pos < 8 {
            return Err(crate::codec::short_buffer(8, buf.len() - pos));
        }
        let p = put_zeros(buf, pos, 6)?;
        let ghost s1 = buf@;
        let p = put_u16(buf, p, self.data_reference_index)?;
        proof {
            lemma_splice_concat(s0, pos as int, zeros(6), u16_bytes(self.data_reference_index));
        }
        Ok(p)
    }
}

} // verus!
pub mod visual;
