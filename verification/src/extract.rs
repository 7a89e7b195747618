//! The extraction engine: pairs the i-th offset-sorted index record with the
//! i-th table-order filename, sanitizes the stored path, copies exactly the
//! declared number of payload bytes, and skips to the next 2048-byte sector
//! boundary before the next pair.

use crate::align::{lemma_next_multiple_bounds, spec_next_multiple};
use crate::errors::ArchiveError;
use crate::index::RCFile;
use crate::paths::{sanitize_path, spec_sanitize};
use crate::stream::ByteStream;
use vstd::prelude::*;

verus! {

/// The sector size: every payload begins on a multiple of this.
pub const SECTOR_SIZE: usize = 2048;

/// `n` rounded up to the next sector boundary, clamped at the end of the
/// data (the final padding of an archive may be truncated).
pub open spec fn round_up_clamped(n: int, len: int) -> int {
    vstd::math::min(spec_next_multiple(n, SECTOR_SIZE as int), len)
}

/// Where an alignment skip lands is a sector boundary, unless the data ends
/// first: so after decoding the index table, the filename table, or any
/// payload, the cursor position is a multiple of the sector size within the
/// data.
pub proof fn lemma_round_up_clamped_aligned(n: int, len: int)
    requires
        0 <= n,
    ensures
        round_up_clamped(n, len) % (SECTOR_SIZE as int) == 0 || round_up_clamped(n, len) == len,
{
    lemma_next_multiple_bounds(n, SECTOR_SIZE as int);
}

/// Where the `i`-th payload begins: the first starts at `base` (the data
/// section's start), and each later one at the sector boundary after its
/// predecessor's declared length.
pub open spec fn payload_start(files: Seq<RCFile>, base: int, len: int, i: int) -> int
    decreases i,
{
    if i <= 0 {
        base
    } else {
        round_up_clamped(payload_start(files, base, len, i - 1) + files[i - 1].length, len)
    }
}

/// Payload starts never precede the data section and never pass the end of
/// the data; every start but the first sits on a sector boundary unless the
/// data ends first.
pub proof fn lemma_payload_start_aligned(files: Seq<RCFile>, base: int, len: int, i: int)
    requires
        0 <= base <= len,
        0 <= i,
    ensures
        0 <= payload_start(files, base, len, i) <= len,
        i > 0 ==> payload_start(files, base, len, i) % (SECTOR_SIZE as int) == 0
            || payload_start(files, base, len, i) == len,
    decreases i,
{
    if i > 0 {
        lemma_payload_start_aligned(files, base, len, i - 1);
        lemma_next_multiple_bounds(
            payload_start(files, base, len, i - 1) + files[i - 1].length,
            SECTOR_SIZE as int,
        );
    }
}

/// One archive entry, fully extracted: the sanitized path components (the
/// last one is the output file's base name) and the payload bytes.
pub struct ExtractedFile {
    pub path: Vec<Vec<u8>>,
    pub data: Vec<u8>,
}

/// Whether the `i`-th pair extracts cleanly: its stored path keeps at least
/// one component, and its whole declared payload lies within the data.
pub open spec fn extract_pair_ok(
    bytes: Seq<u8>,
    files: Seq<RCFile>,
    names: Seq<Seq<u8>>,
    base: int,
    i: int,
) -> bool {
    &&& spec_sanitize(names[i]).len() > 0
    &&& payload_start(files, base, bytes.len() as int, i) + files[i].length <= bytes.len()
}

/// All pairs before `j` extract cleanly.
pub open spec fn extract_ok_upto(
    bytes: Seq<u8>,
    files: Seq<RCFile>,
    names: Seq<Seq<u8>>,
    base: int,
    j: int,
) -> bool {
    forall|i: int| 0 <= i < j ==> extract_pair_ok(bytes, files, names, base, i)
}

/// Pair `j` is the first that does not extract cleanly: all pairs before it
/// do, and it does not.
pub open spec fn first_fail_at(
    bytes: Seq<u8>,
    files: Seq<RCFile>,
    names: Seq<Seq<u8>>,
    base: int,
    j: int,
) -> bool {
    &&& 0 <= j < files.len()
    &&& extract_ok_upto(bytes, files, names, base, j)
    &&& !extract_pair_ok(bytes, files, names, base, j)
}

/// The error a dirty pair earns: an unusable path before a truncated payload.
pub open spec fn failure_error(names: Seq<Seq<u8>>, j: int) -> ArchiveError {
    if spec_sanitize(names[j]).len() == 0 {
        ArchiveError::EmptyPath
    } else {
        ArchiveError::TruncatedPayload
    }
}

/// The bytes of one Vec of a Vec-of-Vecs, seen through the element-wise view.
proof fn lemma_deep_view_index(v: &Vec<Vec<u8>>, j: int)
    requires
        0 <= j < v@.len(),
    ensures
        v.deep_view()[j] == v@[j]@,
{
    assert(v@[j].deep_view() =~= v@[j]@);
}

/// Extract every pair in lock-step: the i-th index record gives the payload
/// bounds, the i-th filename the sanitized output path. Exactly the declared
/// number of bytes is taken per entry, and the cursor then skips to the next
/// sector boundary. Succeeds exactly when every pair extracts cleanly; the
/// first dirty pair aborts the run, an unusable path before a truncated
/// payload.
pub fn extract_files(
    stream: &mut ByteStream,
    files: &Vec<RCFile>,
    filenames: &Vec<Vec<u8>>,
) -> (r: Result<Vec<ExtractedFile>, ArchiveError>)
    requires
        old(stream).inv(),
        files@.len() == filenames@.len(),
    ensures
        final(stream).inv(),
        final(stream).bytes() == old(stream).bytes(),
        r.is_ok() <==> extract_ok_upto(
            old(stream).bytes(),
            files@,
            filenames.deep_view(),
            old(stream).position(),
            files@.len() as int,
        ),
        r.is_ok() ==> {
            let bytes = old(stream).bytes();
            let base = old(stream).position();
            let out = r.unwrap();
            &&& out@.len() == files@.len()
            &&& final(stream).position() == payload_start(
                files@,
                base,
                bytes.len() as int,
                files@.len() as int,
            )
            &&& forall|j: int|
                0 <= j < files@.len() ==> (#[trigger] out@[j]).path.deep_view() == spec_sanitize(
                    filenames.deep_view()[j],
                )
            &&& forall|j: int|
                0 <= j < files@.len() ==> (#[trigger] out@[j]).data@ == bytes.subrange(
                    payload_start(files@, base, bytes.len() as int, j),
                    payload_start(files@, base, bytes.len() as int, j) + files@[j].length,
                )
        },
        r.is_ok() && files@.len() > 0 ==> final(stream).position() % (SECTOR_SIZE as int) == 0
            || final(stream).position() == old(stream).len(),
        r.is_err() ==> exists|j: int|
            #[trigger] first_fail_at(
                old(stream).bytes(),
                files@,
                filenames.deep_view(),
                old(stream).position(),
                j,
            ) && r->Err_0 == failure_error(filenames.deep_view(), j),
{
    let ghost bytes = old(stream).bytes();
    let ghost base = old(stream).position();
    let ghost len = old(stream).len();
    let ghost names = filenames.deep_view();
    let mut out: Vec<ExtractedFile> = Vec::new();
    let mut i: usize = 0;
    while i < files.len()
        invariant
            stream.inv(),
            bytes == old(stream).bytes(),
            base == old(stream).position(),
            len == old(stream).len(),
            names == filenames.deep_view(),
            files@.len() == filenames@.len(),
            stream.bytes() == bytes,
            0 <= i <= files@.len(),
            stream.position() == payload_start(files@, base, len, i as int),
            extract_ok_upto(bytes, files@, names, base, i as int),
            out@.len() == i,
            forall|j: int|
                0 <= j < i ==> (#[trigger] out@[j]).path.deep_view() == spec_sanitize(names[j]),
            forall|j: int|
                0 <= j < i ==> (#[trigger] out@[j]).data@ == bytes.subrange(
                    payload_start(files@, base, len, j),
                    payload_start(files@, base, len, j) + files@[j].length,
                ),
        decreases files@.len() - i,
    {
        let entry = files[i];
        let name = &filenames[i];
        proof {
            lemma_deep_view_index(filenames, i as int);
        }
        let comps = match sanitize_path(name) {
            Ok(c) => c,
            Err(e) => {
                proof {
                    assert(!extract_pair_ok(bytes, files@, names, base, i as int));
                    assert(first_fail_at(
                        old(stream).bytes(),
                        files@,
                        filenames.deep_view(),
                        old(stream).position(),
                        i as int,
                    ));
                    assert(e == failure_error(filenames.deep_view(), i as int));
                }
                return Err(e);
            },
        };
        let data = match stream.read_exact(entry.length as usize) {
            Some(d) => d,
            None => {
                proof {
                    assert(!extract_pair_ok(bytes, files@, names, base, i as int));
                    assert(first_fail_at(
                        old(stream).bytes(),
                        files@,
                        filenames.deep_view(),
                        old(stream).position(),
                        i as int,
                    ));
                    assert(ArchiveError::TruncatedPayload == failure_error(
                        filenames.deep_view(),
                        i as int,
                    ));
                }
                return Err(ArchiveError::TruncatedPayload);
            },
        };
        out.push(ExtractedFile { path: comps, data });
        stream.skip_to_multiple(SECTOR_SIZE);
        proof {
            assert(stream.position() == payload_start(files@, base, len, i + 1));
            assert(extract_pair_ok(bytes, files@, names, base, i as int));
        }
        i = i + 1;
    }
    proof {
        if files@.len() > 0 {
            lemma_payload_start_aligned(files@, base, len, files@.len() as int);
        }
    }
    Ok(out)
}

} // verus!
