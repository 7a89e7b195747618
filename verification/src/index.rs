//! The index table: `file_count` fixed-size records, each a reserved field
//! followed by the payload's declared absolute offset and byte length. After
//! decoding, the records are sorted by ascending offset, since the data
//! section stores payloads in offset order.

use crate::errors::ArchiveError;
use crate::stream::{u32_le, ByteStream};
use vstd::prelude::*;
use vstd::seq_lib::to_multiset_insert;

verus! {

/// One archived file's location: its declared absolute payload offset and its
/// payload length in bytes.
#[derive(Clone, Copy, Debug, PartialEq, Eq, Structural)]
pub struct RCFile {
    pub offset: u32,
    pub length: u32,
}

/// The record decoded from the `i`-th index slot of a table at `p`.
pub open spec fn spec_index_entry(bytes: Seq<u8>, p: int, i: int) -> RCFile {
    RCFile {
        offset: u32_le(bytes.subrange(p + 12 * i + 4, p + 12 * i + 8)) as u32,
        length: u32_le(bytes.subrange(p + 12 * i + 8, p + 12 * i + 12)) as u32,
    }
}

/// All `n` records of an index table at `p`, in on-disk table order.
pub open spec fn index_entries(bytes: Seq<u8>, p: int, n: int) -> Seq<RCFile> {
    Seq::new(n as nat, |i: int| spec_index_entry(bytes, p, i))
}

/// Ascending declared payload offsets.
pub open spec fn sorted_by_offset(s: Seq<RCFile>) -> bool {
    forall|i: int, j: int| 0 <= i < j < s.len() ==> s[i].offset <= s[j].offset
}

/// Insert one record into a sequence kept sorted by offset.
fn insert_sorted(v: &mut Vec<RCFile>, x: RCFile)
    requires
        sorted_by_offset(old(v)@),
    ensures
        sorted_by_offset(final(v)@),
        final(v)@.to_multiset() == old(v)@.to_multiset().insert(x),
        final(v)@.len() == old(v)@.len() + 1,
{
    let mut k: usize = 0;
    while k < v.len() && v[k].offset <= x.offset
        invariant
            0 <= k <= v@.len(),
            v@ == old(v)@,
            forall|j: int| 0 <= j < k ==> v@[j].offset <= x.offset,
        decreases v@.len() - k,
    {
        k = k + 1;
    }
    v.insert(k, x);
    proof {
        to_multiset_insert(old(v)@, k as int, x);
        assert forall|i: int, j: int| 0 <= i < j < v@.len() implies v@[i].offset
            <= v@[j].offset by {
            assert(v@ == old(v)@.insert(k as int, x));
            if i < k && j > k {
                assert(v@[i] == old(v)@[i]);
                assert(v@[j] == old(v)@[j - 1]);
            }
        }
    }
}

/// Decode `number` index records in table order: each skips a reserved field,
/// then reads the offset and the length, both little-endian. The result is
/// sorted ascending by offset; it holds exactly the decoded records, as a
/// multiset. Succeeds exactly when `12 * number` bytes remain.
pub fn read_number_of_files(stream: &mut ByteStream, number: usize) -> (r: Result<
    Vec<RCFile>,
    ArchiveError,
>)
    requires
        old(stream).inv(),
    ensures
        final(stream).inv(),
        final(stream).bytes() == old(stream).bytes(),
        r.is_ok() <==> old(stream).position() + 12 * number <= old(stream).len(),
        r.is_ok() ==> final(stream).position() == old(stream).position() + 12 * number,
        r.is_ok() ==> r.unwrap()@.len() == number,
        r.is_ok() ==> r.unwrap()@.to_multiset() == index_entries(
            old(stream).bytes(),
            old(stream).position(),
            number as int,
        ).to_multiset(),
        r.is_ok() ==> sorted_by_offset(r.unwrap()@),
        r.is_err() ==> r->Err_0 == ArchiveError::TruncatedIndex,
{
    let ghost p = old(stream).position();
    let ghost bytes = old(stream).bytes();
    let mut raw: Vec<RCFile> = Vec::new();
    let mut i: usize = 0;
    while i < number
        invariant
            stream.inv(),
            bytes == old(stream).bytes(),
            p == old(stream).position(),
            stream.bytes() == bytes,
            stream.position() == p + 12 * i,
            0 <= i <= number,
            raw@ =~= index_entries(bytes, p, i as int),
        decreases number - i,
    {
        if !stream.skip(4) {
            return Err(ArchiveError::TruncatedIndex);
        }
        let offset = match stream.read_u32_le() {
            Some(v) => v,
            None => {
                return Err(ArchiveError::TruncatedIndex);
            },
        };
        let length = match stream.read_u32_le() {
            Some(v) => v,
            None => {
                return Err(ArchiveError::TruncatedIndex);
            },
        };
        let entry = RCFile { offset, length };
        raw.push(entry);
        proof {
            assert(entry == spec_index_entry(bytes, p, i as int));
            assert(raw@ =~= index_entries(bytes, p, i + 1));
        }
        i = i + 1;
    }
    let mut sorted: Vec<RCFile> = Vec::new();
    proof {
        assert(sorted@ =~= raw@.take(0));
    }
    let mut j: usize = 0;
    while j < raw.len()
        invariant
            0 <= j <= raw@.len(),
            sorted_by_offset(sorted@),
            sorted@.len() == j,
            sorted@.to_multiset() == raw@.take(j as int).to_multiset(),
        decreases raw@.len() - j,
    {
        let x = raw[j];
        insert_sorted(&mut sorted, x);
        proof {
            broadcast use vstd::seq_lib::group_to_multiset_ensures;

            assert(raw@.take(j + 1) =~= raw@.take(j as int).push(x));
        }
        j = j + 1;
    }
    proof {
        assert(raw@.take(raw@.len() as int) =~= raw@);
    }
    Ok(sorted)
}

} // verus!
