use rcf_archive::archive::decode_archive;
use rcf_archive::errors::ArchiveError;

fn pad_to_sector(d: &mut Vec<u8>) {
    while d.len() % 2048 != 0 {
        d.push(0);
    }
}

fn header_with_count(count: u32) -> Vec<u8> {
    let mut d = vec![0u8; 60];
    let magic = b"ATG CORE CEMENT LIBRARY";
    d[..magic.len()].copy_from_slice(magic);
    d[56..60].copy_from_slice(&count.to_le_bytes());
    d
}

fn push_index_record(d: &mut Vec<u8>, offset: u32, length: u32) {
    d.extend_from_slice(&[0u8; 4]);
    d.extend_from_slice(&offset.to_le_bytes());
    d.extend_from_slice(&length.to_le_bytes());
}

fn push_name_record(d: &mut Vec<u8>, name: &[u8]) {
    d.extend_from_slice(&[0u8; 12]);
    d.extend_from_slice(&((name.len() as u32) + 1).to_le_bytes());
    d.extend_from_slice(name);
    d.extend_from_slice(&[0u8; 4]);
}

fn build_archive(entries: &[(u32, u32)], names: &[&[u8]], payloads: &[&[u8]]) -> Vec<u8> {
    let mut d = header_with_count(entries.len() as u32);
    for &(offset, length) in entries {
        push_index_record(&mut d, offset, length);
    }
    pad_to_sector(&mut d);
    d.extend_from_slice(&[0u8; 8]);
    for name in names {
        push_name_record(&mut d, name);
    }
    pad_to_sector(&mut d);
    for p in payloads {
        d.extend_from_slice(p);
        pad_to_sector(&mut d);
    }
    d
}

#[test]
fn round_trip_two_files() {
    // Pre-sort order is reversed on purpose: the index is re-sorted by
    // offset, while filenames stay in table order.
    let data = build_archive(
        &[(4096, 3), (2048, 5)],
        &[b"a.txt", b"b\\c.txt"],
        &[b"hello", b"bye"],
    );
    let out = decode_archive(data).expect("valid archive");
    assert_eq!(out.len(), 2);
    assert_eq!(out[0].path, vec![b"a.txt".to_vec()]);
    assert_eq!(out[0].data, b"hello".to_vec());
    assert_eq!(out[1].path, vec![b"b".to_vec(), b"c.txt".to_vec()]);
    assert_eq!(out[1].data, b"bye".to_vec());
}

#[test]
fn output_count_matches_declared_file_count() {
    let data = build_archive(
        &[(2048, 1), (4096, 2), (6144, 3)],
        &[b"x", b"y", b"z"],
        &[b"a", b"bb", b"ccc"],
    );
    let out = decode_archive(data).expect("valid archive");
    assert_eq!(out.len(), 3);
}

#[test]
fn extracted_lengths_match_declared_lengths() {
    let data = build_archive(
        &[(2048, 5), (4096, 3)],
        &[b"first.bin", b"second.bin"],
        &[b"hello", b"bye"],
    );
    let out = decode_archive(data).expect("valid archive");
    assert_eq!(out[0].data.len(), 5);
    assert_eq!(out[1].data.len(), 3);
}

#[test]
fn entries_pair_sorted_index_with_table_order_names() {
    // Declared offsets out of order: after sorting, the payload lengths in
    // stream order are 2, 3, 1 and pair with names n1, n2, n3.
    let data = build_archive(
        &[(8192, 1), (2048, 2), (4096, 3)],
        &[b"n1", b"n2", b"n3"],
        &[b"ab", b"cde", b"f"],
    );
    let out = decode_archive(data).expect("valid archive");
    assert_eq!(out[0].path, vec![b"n1".to_vec()]);
    assert_eq!(out[0].data, b"ab".to_vec());
    assert_eq!(out[1].path, vec![b"n2".to_vec()]);
    assert_eq!(out[1].data, b"cde".to_vec());
    assert_eq!(out[2].path, vec![b"n3".to_vec()]);
    assert_eq!(out[2].data, b"f".to_vec());
}

#[test]
fn truncated_payload_aborts_with_data_error() {
    // The single entry declares 5000 payload bytes but the stream ends
    // after 10.
    let mut data = build_archive(&[(2048, 5000)], &[b"big.bin"], &[]);
    data.extend_from_slice(b"0123456789");
    assert!(matches!(
        decode_archive(data),
        Err(ArchiveError::TruncatedPayload)
    ));
}

#[test]
fn malformed_name_aborts_before_extraction() {
    let data = build_archive(
        &[(2048, 5)],
        &[&[0xFFu8, 0xFE, 0x41][..]],
        &[b"hello"],
    );
    assert!(matches!(
        decode_archive(data),
        Err(ArchiveError::MalformedName)
    ));
}

#[test]
fn short_header_is_a_header_error() {
    assert!(matches!(
        decode_archive(vec![0u8; 10]),
        Err(ArchiveError::TruncatedHeader)
    ));
}

#[test]
fn missing_index_records_are_an_index_error() {
    // The header declares one file but the stream ends right after the
    // header.
    let data = header_with_count(1);
    assert!(matches!(
        decode_archive(data),
        Err(ArchiveError::TruncatedIndex)
    ));
}

#[test]
fn missing_name_table_is_a_name_table_error() {
    let mut data = header_with_count(1);
    push_index_record(&mut data, 2048, 5);
    // No padding up to the filename table at all.
    assert!(matches!(
        decode_archive(data),
        Err(ArchiveError::TruncatedNameTable)
    ));
}

#[test]
fn zero_name_length_is_invalid() {
    let mut data = header_with_count(1);
    push_index_record(&mut data, 2048, 5);
    pad_to_sector(&mut data);
    data.extend_from_slice(&[0u8; 8]);
    // A record that declares name_length == 0: no room for the terminator.
    data.extend_from_slice(&[0u8; 12]);
    data.extend_from_slice(&0u32.to_le_bytes());
    data.extend_from_slice(&[0u8; 4]);
    pad_to_sector(&mut data);
    data.extend_from_slice(b"hello");
    pad_to_sector(&mut data);
    assert!(matches!(
        decode_archive(data),
        Err(ArchiveError::InvalidNameLength)
    ));
}

#[test]
fn name_with_no_usable_component_is_an_empty_path_error() {
    let data = build_archive(&[(2048, 5)], &[b"..\\.."], &[b"hello"]);
    assert!(matches!(
        decode_archive(data),
        Err(ArchiveError::EmptyPath)
    ));
}

#[test]
fn empty_archive_with_zero_files_decodes_to_nothing() {
    let data = build_archive(&[], &[], &[]);
    let out = decode_archive(data).expect("valid archive");
    assert_eq!(out.len(), 0);
}

#[test]
fn error_descriptions_name_the_stage() {
    assert_eq!(
        ArchiveError::TruncatedHeader.describe(),
        "end of stream inside the archive header"
    );
    assert_eq!(
        ArchiveError::TruncatedPayload.describe(),
        "payload is longer than the remaining stream"
    );
}
