use rcf_archive::align::{next_multiple, nm_to_skip};
use rcf_archive::errors::ArchiveError;
use rcf_archive::header::{read_archive_header, ArchiveHeader};
use rcf_archive::index::{read_number_of_files, RCFile};
use rcf_archive::names::read_filenames;
use rcf_archive::paths::sanitize_path;
use rcf_archive::stream::ByteStream;

#[test]
fn next_multiple_exact_values() {
    assert_eq!(next_multiple(0, 2048), 0);
    assert_eq!(next_multiple(1, 2048), 2048);
    assert_eq!(next_multiple(2048, 2048), 2048);
    assert_eq!(next_multiple(2049, 2048), 4096);
    assert_eq!(next_multiple(60, 2048), 2048);
}

#[test]
fn nm_to_skip_exact_values() {
    assert_eq!(nm_to_skip(0, 2048), 0);
    assert_eq!(nm_to_skip(60, 2048), 1988);
    assert_eq!(nm_to_skip(2048, 2048), 0);
    assert_eq!(nm_to_skip(4095, 2048), 1);
}

#[test]
fn new_header_is_all_zero() {
    let h = ArchiveHeader::new();
    assert_eq!(h.header, vec![0u8; 32]);
    assert_eq!(h.directory_offset, 0);
    assert_eq!(h.directory_length, 0);
    assert_eq!(h.offset_to_filename_directory, 0);
    assert_eq!(h.filename_directory_length, 0);
    assert_eq!(h.number_of_files, 0);
    assert!(!h.is_known_magic());
}

#[test]
fn header_fields_decode_little_endian() {
    let mut d = vec![0u8; 60];
    let magic = b"ATG CORE CEMENT LIBRARY";
    d[..magic.len()].copy_from_slice(magic);
    d[36..40].copy_from_slice(&[0x04, 0x03, 0x02, 0x01]);
    d[40..44].copy_from_slice(&[0x78, 0x56, 0x34, 0x12]);
    d[44..48].copy_from_slice(&[0x01, 0x00, 0x00, 0x00]);
    d[48..52].copy_from_slice(&[0xFF, 0xFF, 0x00, 0x00]);
    d[56..60].copy_from_slice(&[0x02, 0x00, 0x00, 0x00]);
    let mut stream = ByteStream::new(d);
    let h = read_archive_header(&mut stream).expect("complete header");
    assert_eq!(h.directory_offset, 0x01020304);
    assert_eq!(h.directory_length, 0x12345678);
    assert_eq!(h.offset_to_filename_directory, 1);
    assert_eq!(h.filename_directory_length, 0xFFFF);
    assert_eq!(h.number_of_files, 2);
    assert!(h.is_known_magic());
    assert_eq!(stream.stream_position(), 60);
}

#[test]
fn short_header_leaves_error() {
    let mut stream = ByteStream::new(vec![0u8; 59]);
    assert!(matches!(
        read_archive_header(&mut stream),
        Err(ArchiveError::TruncatedHeader)
    ));
}

#[test]
fn index_records_decode_and_sort_by_offset() {
    let mut d = Vec::new();
    for &(offset, length) in &[(4096u32, 7u32), (2048, 9)] {
        d.extend_from_slice(&[0u8; 4]);
        d.extend_from_slice(&offset.to_le_bytes());
        d.extend_from_slice(&length.to_le_bytes());
    }
    let mut stream = ByteStream::new(d);
    let files = read_number_of_files(&mut stream, 2).expect("complete table");
    assert_eq!(
        files,
        vec![
            RCFile {
                offset: 2048,
                length: 9
            },
            RCFile {
                offset: 4096,
                length: 7
            }
        ]
    );
    assert_eq!(stream.stream_position(), 24);
}

#[test]
fn short_index_leaves_error() {
    let mut stream = ByteStream::new(vec![0u8; 23]);
    assert_eq!(
        read_number_of_files(&mut stream, 2),
        Err(ArchiveError::TruncatedIndex)
    );
}

#[test]
fn filename_records_decode_in_table_order() {
    let mut d = Vec::new();
    for name in [&b"beta"[..], &b"alpha"[..]] {
        d.extend_from_slice(&[0u8; 12]);
        d.extend_from_slice(&((name.len() as u32) + 1).to_le_bytes());
        d.extend_from_slice(name);
        d.extend_from_slice(&[0u8; 4]);
    }
    let mut stream = ByteStream::new(d);
    let names = read_filenames(&mut stream, 2).expect("complete table");
    assert_eq!(names, vec![b"beta".to_vec(), b"alpha".to_vec()]);
}

#[test]
fn invalid_utf8_name_is_malformed() {
    let mut d = Vec::new();
    d.extend_from_slice(&[0u8; 12]);
    d.extend_from_slice(&3u32.to_le_bytes());
    d.extend_from_slice(&[0xC3, 0x28]);
    d.extend_from_slice(&[0u8; 4]);
    let mut stream = ByteStream::new(d);
    assert_eq!(
        read_filenames(&mut stream, 1),
        Err(ArchiveError::MalformedName)
    );
}

#[test]
fn sanitize_keeps_plain_relative_paths() {
    let r = sanitize_path(&b"dir\\sub\\file.txt".to_vec()).expect("usable path");
    assert_eq!(
        r,
        vec![b"dir".to_vec(), b"sub".to_vec(), b"file.txt".to_vec()]
    );
}

#[test]
fn sanitize_drops_parent_steps() {
    let r = sanitize_path(&b"..\\..\\etc\\passwd".to_vec()).expect("usable path");
    assert_eq!(r, vec![b"etc".to_vec(), b"passwd".to_vec()]);
}

#[test]
fn sanitize_drops_drive_and_root() {
    let r = sanitize_path(&b"C:\\dir\\f.txt".to_vec()).expect("usable path");
    assert_eq!(r, vec![b"dir".to_vec(), b"f.txt".to_vec()]);
    let r = sanitize_path(&b"/abs/x".to_vec()).expect("usable path");
    assert_eq!(r, vec![b"abs".to_vec(), b"x".to_vec()]);
}

#[test]
fn sanitize_drops_current_dir_and_empty_components() {
    let r = sanitize_path(&b"a/./b//c".to_vec()).expect("usable path");
    assert_eq!(r, vec![b"a".to_vec(), b"b".to_vec(), b"c".to_vec()]);
}

#[test]
fn sanitize_is_idempotent_on_values() {
    let once = sanitize_path(&b"..\\x\\.\\y".to_vec()).expect("usable path");
    let rejoined = once.join(&b'/');
    let twice = sanitize_path(&rejoined).expect("usable path");
    assert_eq!(once, twice);
}

#[test]
fn sanitize_rejects_paths_with_nothing_left() {
    assert_eq!(
        sanitize_path(&b"".to_vec()),
        Err(ArchiveError::EmptyPath)
    );
    assert_eq!(
        sanitize_path(&b"..".to_vec()),
        Err(ArchiveError::EmptyPath)
    );
    assert_eq!(
        sanitize_path(&b".\\..".to_vec()),
        Err(ArchiveError::EmptyPath)
    );
    assert_eq!(
        sanitize_path(&b"///".to_vec()),
        Err(ArchiveError::EmptyPath)
    );
}

#[test]
fn stream_skip_to_multiple_clamps_at_end() {
    let mut s = ByteStream::new(vec![0u8; 100]);
    assert!(s.skip(60));
    let skipped = s.skip_to_multiple(2048);
    assert_eq!(skipped, 40);
    assert_eq!(s.stream_position(), 100);
    let mut s = ByteStream::new(vec![0u8; 4096]);
    assert!(s.skip(60));
    assert_eq!(s.skip_to_multiple(2048), 1988);
    assert_eq!(s.stream_position(), 2048);
}
