//! The filename table: `file_count` variable-size records in strict table
//! order. Each record holds three reserved fields, a little-endian name
//! length that counts a trailing null terminator, the name's UTF-8 bytes
//! without that terminator, and four fixed padding bytes.

use crate::errors::ArchiveError;
use crate::stream::{u32_le, ByteStream};
use vstd::prelude::*;

verus! {

/// Whether a byte sequence is valid UTF-8.
pub uninterp spec fn is_utf8(s: Seq<u8>) -> bool;

/// Relies on `core::str::from_utf8`: it returns `Ok` exactly on valid UTF-8,
/// and validity depends on the bytes alone.
#[verifier::external_body]
fn utf8_check(b: &Vec<u8>) -> (r: bool)
    ensures
        r == is_utf8(b@),
{
    core::str::from_utf8(b.as_slice()).is_ok()
}

/// The declared name length of the record that starts at `q` (it counts the
/// trailing null terminator, so a stored name of `k` bytes declares `k + 1`).
pub open spec fn name_len_at(bytes: Seq<u8>, q: int) -> int {
    u32_le(bytes.subrange(q + 12, q + 16))
}

/// The name bytes of the record that starts at `q`, terminator excluded.
pub open spec fn name_at(bytes: Seq<u8>, q: int) -> Seq<u8> {
    bytes.subrange(q + 16, q + 16 + name_len_at(bytes, q) - 1)
}

/// Where the record that starts at `q` ends: twelve reserved bytes, the
/// four-byte length field, the name without its terminator, four padding
/// bytes.
pub open spec fn record_end(bytes: Seq<u8>, q: int) -> int {
    q + 19 + name_len_at(bytes, q)
}

/// The names of `n` filename records starting at `q`, in table order, with
/// the position just past the last record; or the first fatal error. A record
/// fails when the stream ends inside it, when it declares a zero length
/// (there is no room for the mandatory terminator), or when its name bytes
/// are not valid UTF-8.
pub open spec fn spec_read_names(bytes: Seq<u8>, q: int, n: int) -> Result<
    (Seq<Seq<u8>>, int),
    ArchiveError,
>
    decreases n,
{
    if n <= 0 {
        Ok((Seq::empty(), q))
    } else if q + 16 > bytes.len() {
        Err(ArchiveError::TruncatedNameTable)
    } else if name_len_at(bytes, q) == 0 {
        Err(ArchiveError::InvalidNameLength)
    } else if record_end(bytes, q) > bytes.len() {
        Err(ArchiveError::TruncatedNameTable)
    } else if !is_utf8(name_at(bytes, q)) {
        Err(ArchiveError::MalformedName)
    } else {
        match spec_read_names(bytes, record_end(bytes, q), n - 1) {
            Ok((rest, end)) => Ok((seq![name_at(bytes, q)] + rest, end)),
            Err(e) => Err(e),
        }
    }
}

/// One more element on a vector of byte vectors appends its bytes to the
/// element-wise view.
pub(crate) proof fn lemma_deep_view_push(v1: Vec<Vec<u8>>, v0: Vec<Vec<u8>>, x: Vec<u8>)
    requires
        v1@ == v0@.push(x),
    ensures
        v1.deep_view() == v0.deep_view().push(x@),
{
    assert(x.deep_view() =~= x@);
    assert(v1.deep_view() =~= v0.deep_view().push(x@));
}

/// Prepending already-decoded names to a partial result.
spec fn prepend_names(
    acc: Seq<Seq<u8>>,
    r: Result<(Seq<Seq<u8>>, int), ArchiveError>,
) -> Result<(Seq<Seq<u8>>, int), ArchiveError> {
    match r {
        Ok((names, end)) => Ok((acc + names, end)),
        Err(e) => Err(e),
    }
}

/// Decode `number` filename records in table order. Succeeds exactly when the
/// corresponding specification decode does, returns exactly its names, and
/// every returned name is valid UTF-8; a failure reports the specification's
/// error and aborts the run before any extraction.
pub fn read_filenames(stream: &mut ByteStream, number: usize) -> (r: Result<
    Vec<Vec<u8>>,
    ArchiveError,
>)
    requires
        old(stream).inv(),
    ensures
        final(stream).inv(),
        final(stream).bytes() == old(stream).bytes(),
        r.is_ok() <==> spec_read_names(
            old(stream).bytes(),
            old(stream).position(),
            number as int,
        ).is_ok(),
        r.is_ok() ==> {
            let sr = spec_read_names(old(stream).bytes(), old(stream).position(), number as int);
            &&& r.unwrap().deep_view() == sr.unwrap().0
            &&& r.unwrap()@.len() == number
            &&& final(stream).position() == sr.unwrap().1
            &&& forall|i: int|
                0 <= i < number ==> is_utf8(#[trigger] r.unwrap().deep_view()[i])
        },
        r.is_err() ==> r->Err_0 == spec_read_names(
            old(stream).bytes(),
            old(stream).position(),
            number as int,
        )->Err_0,
{
    let ghost bytes = old(stream).bytes();
    let ghost p = old(stream).position();
    let ghost goal = spec_read_names(bytes, p, number as int);
    let mut filenames: Vec<Vec<u8>> = Vec::new();
    let mut i: usize = 0;
    proof {
        assert(filenames.deep_view() =~= Seq::<Seq<u8>>::empty());
        if goal.is_ok() {
            assert(filenames.deep_view() + goal.unwrap().0 =~= goal.unwrap().0);
        }
    }
    while i < number
        invariant
            stream.inv(),
            bytes == old(stream).bytes(),
            p == old(stream).position(),
            stream.bytes() == bytes,
            goal == spec_read_names(bytes, p, number as int),
            0 <= i <= number,
            filenames@.len() == i,
            forall|j: int| 0 <= j < i ==> is_utf8(#[trigger] filenames.deep_view()[j]),
            prepend_names(
                filenames.deep_view(),
                spec_read_names(bytes, stream.position(), number - i),
            ) == goal,
        decreases number - i,
    {
        let ghost q = stream.position();
        let ghost tail = spec_read_names(bytes, q, number - i);
        if !stream.skip(12) {
            return Err(ArchiveError::TruncatedNameTable);
        }
        let fn_length = match stream.read_u32_le() {
            Some(v) => v,
            None => {
                return Err(ArchiveError::TruncatedNameTable);
            },
        };
        if fn_length == 0 {
            return Err(ArchiveError::InvalidNameLength);
        }
        proof {
            assert(fn_length == name_len_at(bytes, q));
        }
        let name = match stream.read_exact((fn_length - 1) as usize) {
            Some(v) => v,
            None => {
                proof {
                    assert(record_end(bytes, q) > bytes.len());
                }
                return Err(ArchiveError::TruncatedNameTable);
            },
        };
        if !stream.skip(4) {
            proof {
                assert(record_end(bytes, q) > bytes.len());
            }
            return Err(ArchiveError::TruncatedNameTable);
        }
        proof {
            assert(name@ =~= name_at(bytes, q));
            assert(stream.position() == record_end(bytes, q));
        }
        if !utf8_check(&name) {
            return Err(ArchiveError::MalformedName);
        }
        let ghost prev = filenames;
        filenames.push(name);
        proof {
            lemma_deep_view_push(filenames, prev, name);
            let rest = spec_read_names(bytes, record_end(bytes, q), number - i - 1);
            if rest.is_ok() {
                assert(prev.deep_view() + (seq![name_at(bytes, q)] + rest.unwrap().0)
                    =~= filenames.deep_view() + rest.unwrap().0);
            }
        }
        i = i + 1;
    }
    proof {
        assert(spec_read_names(bytes, stream.position(), 0) == Ok::<_, ArchiveError>((
            Seq::<Seq<u8>>::empty(),
            stream.position(),
        )));
        assert(filenames.deep_view() + Seq::<Seq<u8>>::empty() =~= filenames.deep_view());
    }
    Ok(filenames)
}

} // verus!
