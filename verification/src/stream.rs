//! An in-memory byte stream over the whole archive: a byte vector and a
//! cursor. The decoders consume the stream strictly left to right, exactly as
//! the container's sequential layout demands.

use crate::align::{lemma_next_multiple_bounds, spec_next_multiple};
use vstd::prelude::*;
use vstd::slice::{slice_subrange, slice_to_vec};

verus! {

/// Value of a four-byte sequence read as a little-endian unsigned integer.
pub open spec fn u32_le(s: Seq<u8>) -> int
    recommends
        s.len() == 4,
{
    s[0] + 0x100 * (s[1] as int) + 0x10000 * (s[2] as int) + 0x1000000 * (s[3] as int)
}

/// Relies on `byteorder::LittleEndian`'s `ByteOrder::read_u32`, which returns
/// `u32::from_le_bytes` of the first four bytes and panics only on a slice
/// shorter than four bytes.
#[verifier::external_body]
fn u32_from_le(b: &[u8]) -> (r: u32)
    requires
        b@.len() == 4,
    ensures
        r == u32_le(b@),
{
    <byteorder::LittleEndian as byteorder::ByteOrder>::read_u32(b)
}

/// A cursor over the archive's bytes. The cursor only moves forward and never
/// passes the end of the data.
pub struct ByteStream {
    data: Vec<u8>,
    pos: usize,
}

impl ByteStream {
    /// All bytes of the archive; reads never change them.
    pub closed spec fn bytes(&self) -> Seq<u8> {
        self.data@
    }

    /// Current cursor position.
    pub closed spec fn position(&self) -> int {
        self.pos as int
    }

    /// Total number of bytes in the archive.
    pub open spec fn len(&self) -> int {
        self.bytes().len() as int
    }

    /// The cursor stays within the data.
    pub open spec fn inv(&self) -> bool {
        0 <= self.position() <= self.len()
    }

    pub fn new(data: Vec<u8>) -> (s: Self)
        ensures
            s.bytes() == data@,
            s.position() == 0,
            s.inv(),
    {
        ByteStream { data, pos: 0 }
    }

    pub fn stream_position(&self) -> (r: usize)
        ensures
            r == self.position(),
    {
        self.pos
    }

    /// Advance the cursor by `n` bytes; `false` (cursor unchanged) when fewer
    /// than `n` bytes remain.
    pub fn skip(&mut self, n: usize) -> (ok: bool)
        requires
            old(self).inv(),
        ensures
            final(self).inv(),
            final(self).bytes() == old(self).bytes(),
            ok <==> old(self).position() + n <= old(self).len(),
            ok ==> final(self).position() == old(self).position() + n,
            !ok ==> *final(self) == *old(self),
    {
        if n <= self.data.len() - self.pos {
            self.pos = self.pos + n;
            true
        } else {
            false
        }
    }

    /// Read exactly `n` bytes and advance; `None` (cursor unchanged) when
    /// fewer than `n` bytes remain.
    pub fn read_exact(&mut self, n: usize) -> (r: Option<Vec<u8>>)
        requires
            old(self).inv(),
        ensures
            final(self).inv(),
            final(self).bytes() == old(self).bytes(),
            r.is_some() <==> old(self).position() + n <= old(self).len(),
            r.is_some() ==> final(self).position() == old(self).position() + n && r.unwrap()@
                == old(self).bytes().subrange(
                old(self).position(),
                old(self).position() + n,
            ),
            r.is_none() ==> *final(self) == *old(self),
    {
        if n <= self.data.len() - self.pos {
            let s = slice_subrange(self.data.as_slice(), self.pos, self.pos + n);
            let v = slice_to_vec(s);
            self.pos = self.pos + n;
            Some(v)
        } else {
            None
        }
    }

    /// Read a little-endian unsigned 32-bit integer and advance by four bytes;
    /// `None` (cursor unchanged) when fewer than four bytes remain.
    pub fn read_u32_le(&mut self) -> (r: Option<u32>)
        requires
            old(self).inv(),
        ensures
            final(self).inv(),
            final(self).bytes() == old(self).bytes(),
            r.is_some() <==> old(self).position() + 4 <= old(self).len(),
            r.is_some() ==> final(self).position() == old(self).position() + 4 && r.unwrap()
                == u32_le(
                old(self).bytes().subrange(old(self).position(), old(self).position() + 4),
            ),
            r.is_none() ==> *final(self) == *old(self),
    {
        if 4 <= self.data.len() - self.pos {
            let s = slice_subrange(self.data.as_slice(), self.pos, self.pos + 4);
            let v = u32_from_le(s);
            self.pos = self.pos + 4;
            Some(v)
        } else {
            None
        }
    }

    /// Advance to the next multiple of `target`, clamped at the end of the
    /// data (the padding after the very last payload may be absent). Returns
    /// the number of bytes skipped.
    pub fn skip_to_multiple(&mut self, target: usize) -> (skipped: usize)
        requires
            old(self).inv(),
            0 < target,
        ensures
            final(self).inv(),
            final(self).bytes() == old(self).bytes(),
            final(self).position() == vstd::math::min(
                spec_next_multiple(old(self).position(), target as int),
                old(self).len(),
            ),
            skipped == final(self).position() - old(self).position(),
    {
        proof {
            lemma_next_multiple_bounds(old(self).position(), target as int);
        }
        let rem = self.pos % target;
        if rem == 0 {
            return 0;
        }
        let add = target - rem;
        if add <= self.data.len() - self.pos {
            self.pos = self.pos + add;
            add
        } else {
            let r = self.data.len() - self.pos;
            self.pos = self.data.len();
            r
        }
    }
}

} // verus!
