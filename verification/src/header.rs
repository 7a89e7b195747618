//! The fixed 60-byte archive header: a 32-byte magic, the declared offsets
//! and lengths of the two directories, and the number of archived files. All
//! multi-byte fields are little-endian; two reserved four-byte fields are
//! skipped.

use crate::errors::ArchiveError;
use crate::stream::{u32_le, ByteStream};
use vstd::prelude::*;

verus! {

/// Total size of the header region in bytes.
pub const HEADER_SIZE: usize = 60;

/// The magic bytes of a known container flavour; matching them is purely
/// informational and never a validation gate.
pub const ATG_MAGIC: [u8; 32] = [
    65u8,
    84u8,
    71u8,
    32u8,
    67u8,
    79u8,
    82u8,
    69u8,
    32u8,
    67u8,
    69u8,
    77u8,
    69u8,
    78u8,
    84u8,
    32u8,
    76u8,
    73u8,
    66u8,
    82u8,
    65u8,
    82u8,
    89u8,
    0u8,
    0u8,
    0u8,
    0u8,
    0u8,
    0u8,
    0u8,
    0u8,
    0u8,
];

/// One little-endian 32-bit header field, `off` bytes past the start of the
/// header region at `p`.
pub open spec fn spec_header_field(bytes: Seq<u8>, p: int, off: int) -> int {
    u32_le(bytes.subrange(p + off, p + off + 4))
}

/// The decoded archive header.
pub struct ArchiveHeader {
    /// The 32 magic bytes, kept verbatim; always 32 bytes long.
    pub header: Vec<u8>,
    /// Declared byte offset of the index table (informational).
    pub directory_offset: u32,
    /// Declared byte length of the index table (informational).
    pub directory_length: u32,
    /// Declared byte offset of the filename table (informational).
    pub offset_to_filename_directory: u32,
    /// Declared byte length of the filename table (informational).
    pub filename_directory_length: u32,
    /// Number of entries in both the index and the filename table.
    pub number_of_files: u32,
}

/// What a header decoded from `bytes` at position `p` holds.
pub open spec fn header_matches(h: ArchiveHeader, bytes: Seq<u8>, p: int) -> bool {
    &&& h.header@ == bytes.subrange(p, p + 32)
    &&& h.directory_offset == spec_header_field(bytes, p, 36)
    &&& h.directory_length == spec_header_field(bytes, p, 40)
    &&& h.offset_to_filename_directory == spec_header_field(bytes, p, 44)
    &&& h.filename_directory_length == spec_header_field(bytes, p, 48)
    &&& h.number_of_files == spec_header_field(bytes, p, 56)
}

impl ArchiveHeader {
    /// An all-zero header, ready to be filled by the decoder.
    pub fn new() -> (h: ArchiveHeader)
        ensures
            h.header@.len() == 32,
            forall|i: int| 0 <= i < 32 ==> h.header@[i] == 0u8,
            h.directory_offset == 0,
            h.directory_length == 0,
            h.offset_to_filename_directory == 0,
            h.filename_directory_length == 0,
            h.number_of_files == 0,
    {
        ArchiveHeader {
            header: vec![0u8;32],
            directory_offset: 0,
            directory_length: 0,
            offset_to_filename_directory: 0,
            filename_directory_length: 0,
            number_of_files: 0,
        }
    }

    /// Whether the magic bytes match the known signature. Informational only.
    pub fn is_known_magic(&self) -> (r: bool)
        ensures
            r <==> self.header@ == ATG_MAGIC@,
    {
        if self.header.len() != 32 {
            proof {
                assert(ATG_MAGIC@.len() == 32);
            }
            return false;
        }
        let mut i: usize = 0;
        while i < 32
            invariant
                0 <= i <= 32,
                self.header@.len() == 32,
                ATG_MAGIC@.len() == 32,
                forall|j: int| 0 <= j < i ==> self.header@[j] == ATG_MAGIC@[j],
            decreases 32 - i,
        {
            if self.header[i] != ATG_MAGIC[i] {
                return false;
            }
            i = i + 1;
        }
        proof {
            assert(self.header@ =~= ATG_MAGIC@);
        }
        true
    }
}

/// Decode the header region: 32 magic bytes, a reserved field, four
/// little-endian offset/length fields, a reserved field, and the file count.
/// Succeeds exactly when 60 bytes remain; leaves the cursor just past the
/// header.
pub fn read_archive_header(stream: &mut ByteStream) -> (r: Result<ArchiveHeader, ArchiveError>)
    requires
        old(stream).inv(),
    ensures
        final(stream).inv(),
        final(stream).bytes() == old(stream).bytes(),
        r.is_ok() <==> old(stream).position() + HEADER_SIZE <= old(stream).len(),
        r.is_ok() ==> final(stream).position() == old(stream).position() + HEADER_SIZE
            && header_matches(r.unwrap(), old(stream).bytes(), old(stream).position()),
        r.is_err() ==> r->Err_0 == ArchiveError::TruncatedHeader,
{
    let ghost p = stream.position();
    let mut h = ArchiveHeader::new();
    let magic = match stream.read_exact(32) {
        Some(v) => v,
        None => {
            return Err(ArchiveError::TruncatedHeader);
        },
    };
    h.header = magic;
    if !stream.skip(4) {
        return Err(ArchiveError::TruncatedHeader);
    }
    h.directory_offset = match stream.read_u32_le() {
        Some(v) => v,
        None => {
            return Err(ArchiveError::TruncatedHeader);
        },
    };
    h.directory_length = match stream.read_u32_le() {
        Some(v) => v,
        None => {
            return Err(ArchiveError::TruncatedHeader);
        },
    };
    h.offset_to_filename_directory = match stream.read_u32_le() {
        Some(v) => v,
        None => {
            return Err(ArchiveError::TruncatedHeader);
        },
    };
    h.filename_directory_length = match stream.read_u32_le() {
        Some(v) => v,
        None => {
            return Err(ArchiveError::TruncatedHeader);
        },
    };
    if !stream.skip(4) {
        return Err(ArchiveError::TruncatedHeader);
    }
    h.number_of_files = match stream.read_u32_le() {
        Some(v) => v,
        None => {
            return Err(ArchiveError::TruncatedHeader);
        },
    };
    Ok(h)
}

} // verus!
