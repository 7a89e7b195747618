//! The whole decode pipeline: header, index table, alignment skip and eight
//! reserved bytes, filename table, alignment skip, then lock-step extraction
//! of every payload.

use crate::errors::ArchiveError;
use crate::extract::{
    extract_files, extract_ok_upto, failure_error, first_fail_at, round_up_clamped, ExtractedFile,
    SECTOR_SIZE,
};
use crate::header::{read_archive_header, spec_header_field, HEADER_SIZE};
use crate::index::{index_entries, read_number_of_files, sorted_by_offset, RCFile};
use crate::names::{read_filenames, spec_read_names};
use crate::paths::spec_sanitize;
use crate::stream::ByteStream;
use vstd::prelude::*;

verus! {

/// The declared number of archived files.
pub open spec fn spec_file_count(bytes: Seq<u8>) -> int {
    spec_header_field(bytes, 0, 56)
}

/// Where the index table ends: it follows the header at once, twelve bytes
/// per record.
pub open spec fn index_end(bytes: Seq<u8>) -> int {
    HEADER_SIZE + 12 * spec_file_count(bytes)
}

/// Where the filename table begins: the sector boundary after the index
/// table, then eight reserved bytes.
pub open spec fn names_start(bytes: Seq<u8>) -> int {
    round_up_clamped(index_end(bytes), bytes.len() as int) + 8
}

/// The filename table's decode result.
pub open spec fn spec_names_result(bytes: Seq<u8>) -> Result<(Seq<Seq<u8>>, int), ArchiveError> {
    spec_read_names(bytes, names_start(bytes), spec_file_count(bytes))
}

/// Where the data section begins: the sector boundary after the filename
/// table.
pub open spec fn data_start(bytes: Seq<u8>) -> int {
    round_up_clamped(spec_names_result(bytes).unwrap().1, bytes.len() as int)
}

/// The header and both tables decode cleanly.
pub open spec fn tables_ok(bytes: Seq<u8>) -> bool {
    &&& bytes.len() >= HEADER_SIZE
    &&& index_end(bytes) <= bytes.len()
    &&& names_start(bytes) <= bytes.len()
    &&& spec_names_result(bytes).is_ok()
}

/// `entries` is the decoded index table, re-sorted: the same records as a
/// multiset, in ascending offset order.
pub open spec fn sorted_index_of(bytes: Seq<u8>, entries: Seq<RCFile>) -> bool {
    &&& entries.len() == spec_file_count(bytes)
    &&& entries.to_multiset() == index_entries(bytes, HEADER_SIZE as int, spec_file_count(bytes)).to_multiset()
    &&& sorted_by_offset(entries)
}

/// `out` is the extraction of `entries` paired with the decoded filenames:
/// one output per entry, the sanitized path of the i-th table-order name,
/// and exactly the declared payload bytes from the i-th sector-aligned
/// position of the data section.
pub open spec fn extraction_matches(
    bytes: Seq<u8>,
    entries: Seq<RCFile>,
    out: Seq<ExtractedFile>,
) -> bool {
    let names = spec_names_result(bytes).unwrap().0;
    let base = data_start(bytes);
    &&& out.len() == entries.len()
    &&& extract_ok_upto(bytes, entries, names, base, entries.len() as int)
    &&& forall|j: int|
        0 <= j < out.len() ==> (#[trigger] out[j]).path.deep_view() == spec_sanitize(names[j])
    &&& forall|j: int|
        0 <= j < out.len() ==> (#[trigger] out[j]).data@ == bytes.subrange(
            crate::extract::payload_start(entries, base, bytes.len() as int, j),
            crate::extract::payload_start(entries, base, bytes.len() as int, j)
                + entries[j].length,
        )
}

/// Decode a whole archive held in memory and extract every entry. On success
/// there are exactly as many outputs as the header declares, and they match
/// the extraction of the offset-sorted index table; on failure the error
/// names the stage that aborted the run, and nothing of a later stage was
/// touched.
pub fn decode_archive(data: Vec<u8>) -> (r: Result<Vec<ExtractedFile>, ArchiveError>)
    ensures
        r.is_ok() ==> tables_ok(data@) && r.unwrap()@.len() == spec_file_count(data@),
        r.is_ok() ==> exists|entries: Seq<RCFile>|
            #[trigger] sorted_index_of(data@, entries) && extraction_matches(
                data@,
                entries,
                r.unwrap()@,
            ),
        r.is_err() ==> ({
            let bytes = data@;
            let e = r->Err_0;
            ||| (bytes.len() < HEADER_SIZE && e == ArchiveError::TruncatedHeader)
            ||| (bytes.len() >= HEADER_SIZE && index_end(bytes) > bytes.len() && e
                == ArchiveError::TruncatedIndex)
            ||| (bytes.len() >= HEADER_SIZE && index_end(bytes) <= bytes.len() && names_start(
                bytes,
            ) > bytes.len() && e == ArchiveError::TruncatedNameTable)
            ||| (bytes.len() >= HEADER_SIZE && index_end(bytes) <= bytes.len() && names_start(
                bytes,
            ) <= bytes.len() && spec_names_result(bytes).is_err() && e == spec_names_result(
                bytes,
            )->Err_0)
            ||| (tables_ok(bytes) && exists|entries: Seq<RCFile>|
                #[trigger] sorted_index_of(bytes, entries) && exists|j: int|
                    #[trigger] first_fail_at(
                        bytes,
                        entries,
                        spec_names_result(bytes).unwrap().0,
                        data_start(bytes),
                        j,
                    ) && e == failure_error(spec_names_result(bytes).unwrap().0, j))
        }),
{
    let ghost bytes = data@;
    let mut stream = ByteStream::new(data);
    let a_head = match read_archive_header(&mut stream) {
        Ok(h) => h,
        Err(e) => {
            return Err(e);
        },
    };
    let num_files = a_head.number_of_files as usize;
    proof {
        assert(num_files == spec_file_count(bytes));
    }
    let files = match read_number_of_files(&mut stream, num_files) {
        Ok(v) => v,
        Err(e) => {
            return Err(e);
        },
    };
    stream.skip_to_multiple(SECTOR_SIZE);
    if !stream.skip(8) {
        proof {
            assert(names_start(bytes) > bytes.len());
        }
        return Err(ArchiveError::TruncatedNameTable);
    }
    proof {
        assert(stream.position() == names_start(bytes));
    }
    let filenames = match read_filenames(&mut stream, num_files) {
        Ok(v) => v,
        Err(e) => {
            return Err(e);
        },
    };
    stream.skip_to_multiple(SECTOR_SIZE);
    proof {
        assert(stream.position() == data_start(bytes));
    }
    let out = match extract_files(&mut stream, &files, &filenames) {
        Ok(v) => v,
        Err(e) => {
            proof {
                assert(tables_ok(bytes));
                assert(sorted_index_of(bytes, files@));
                assert(exists|j: int|
                    #[trigger] first_fail_at(
                        bytes,
                        files@,
                        spec_names_result(bytes).unwrap().0,
                        data_start(bytes),
                        j,
                    ) && e == failure_error(spec_names_result(bytes).unwrap().0, j));
            }
            return Err(e);
        },
    };
    proof {
        assert(sorted_index_of(bytes, files@));
        assert(extraction_matches(bytes, files@, out@));
    }
    Ok(out)
}

} // verus!
