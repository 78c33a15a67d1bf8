use rar_dirname::cursor::ReadError;
use rar_dirname::header::parse_block_header;
use rar_dirname::header::parse_file_header;
use rar_dirname::header::parse_other_header;
use rar_dirname::header::parse_service_header;
use rar_dirname::header::BlockHeader;
use rar_dirname::header::ScanError;
use rar_dirname::name::NameError;

/// The bytes of an entry header behind its prefix.
fn entry_body(packed: u32, high: Option<u32>, attributes: u32, name_size: u16, name: &[u8]) -> Vec<u8> {
    let mut body = Vec::new();
    body.extend_from_slice(&packed.to_le_bytes());
    body.extend_from_slice(&[0x11, 0x11, 0x11, 0x11]);
    body.push(2);
    body.extend_from_slice(&[0x22, 0x22, 0x22, 0x22]);
    body.extend_from_slice(&[0x33, 0x33, 0x33, 0x33]);
    body.push(29);
    body.push(0x30);
    body.extend_from_slice(&name_size.to_le_bytes());
    body.extend_from_slice(&attributes.to_le_bytes());
    if let Some(word) = high {
        body.extend_from_slice(&word.to_le_bytes());
    }
    body.extend_from_slice(name);
    body
}

/// A directory entry whose name field holds exactly `name`.
fn directory(name: &[u8]) -> Vec<u8> {
    entry_body(0, None, 0x10, name.len() as u16, name)
}

#[test]
fn block_header_fields_are_little_endian() {
    let h = parse_block_header(vec![0xAA, 0xBB, 0x74, 0x00, 0x01, 0x2C, 0x02]);
    assert_eq!(h, Ok(BlockHeader { tag: 0x74, flags: 0x0100, size: 0x022C }));
}

#[test]
fn block_header_of_the_end_block() {
    let h = parse_block_header(vec![0xC4, 0x3D, 0x7B, 0x00, 0x40, 0x07, 0x00]);
    assert_eq!(h, Ok(BlockHeader { tag: 0x7B, flags: 0x4000, size: 7 }));
}

#[test]
fn block_header_of_any_other_length_is_truncated() {
    assert_eq!(parse_block_header(vec![0, 0, 0x7B, 0, 0, 7]), Err(ScanError::Truncated));
    assert_eq!(parse_block_header(Vec::new()), Err(ScanError::Truncated));
    assert_eq!(parse_block_header(vec![0, 0, 0x7B, 0, 0, 7, 0, 0]), Err(ScanError::Truncated));
}

#[test]
fn other_header_leaves_the_size_less_the_prefix() {
    assert_eq!(parse_other_header(7), Ok(0));
    assert_eq!(parse_other_header(13), Ok(6));
    assert_eq!(parse_other_header(0xFFFF), Ok(0xFFF8));
}

#[test]
fn other_header_below_the_prefix_is_refused() {
    assert_eq!(parse_other_header(6), Err(ScanError::HeaderSize));
    assert_eq!(parse_other_header(0), Err(ScanError::HeaderSize));
}

#[test]
fn service_header_gives_the_payload_length() {
    assert_eq!(parse_service_header(vec![0x10, 0x00, 0x00, 0x00, 9, 9]), Ok(16));
    assert_eq!(parse_service_header(vec![0xFF, 0xFF, 0xFF, 0xFF]), Ok(0xFFFF_FFFF));
}

#[test]
fn service_header_without_length_is_refused() {
    assert_eq!(parse_service_header(vec![1, 2, 3]), Err(ScanError::Field(ReadError::OutOfBounds)));
    assert_eq!(parse_service_header(Vec::new()), Err(ScanError::Field(ReadError::OutOfBounds)));
}

#[test]
fn file_entry_is_no_candidate() {
    let entry = parse_file_header(entry_body(1234, None, 0x20, 5, b"a.txt"), 0).unwrap();
    assert_eq!(entry.packed_size, 1234);
    assert_eq!(entry.candidate, None);
}

#[test]
fn file_entry_name_is_not_looked_at() {
    // The name field is missing altogether, which only matters for a directory.
    let entry = parse_file_header(entry_body(7, None, 0x20, 40, b""), 0).unwrap();
    assert_eq!(entry.packed_size, 7);
    assert_eq!(entry.candidate, None);
}

#[test]
fn directory_entry_is_a_candidate() {
    let entry = parse_file_header(directory(b"abc\0\x04\xC0\x01"), 0).unwrap();
    assert_eq!(entry.packed_size, 0);
    assert_eq!(entry.candidate, Some("abc".to_string()));
}

#[test]
fn directory_entry_with_wide_name() {
    // Fallback "??", encoded as two literals under the high byte 0x04.
    let entry = parse_file_header(directory(b"??\0\x04\x50\x1F\x40"), 0x0200).unwrap();
    assert_eq!(entry.candidate, Some("\u{41F}\u{440}".to_string()));
}

#[test]
fn directory_name_ends_with_the_name_field() {
    // Bytes behind the name field belong to other fields of the header.
    let mut body = directory(b"abc\0\x04\xC0\x01");
    body.extend_from_slice(&[0x00, 0x41, 0x42]);
    let entry = parse_file_header(body, 0).unwrap();
    assert_eq!(entry.candidate, Some("abc".to_string()));
}

#[test]
fn directory_with_backslash_is_no_candidate() {
    let entry = parse_file_header(directory(b"a\\b\0\x04\xC0\x01"), 0).unwrap();
    assert_eq!(entry.candidate, None);
}

#[test]
fn attributes_are_compared_as_a_whole() {
    let body = entry_body(0, None, 0x30, 7, b"abc\0\x04\xC0\x01");
    assert_eq!(parse_file_header(body, 0).unwrap().candidate, None);
    let body = entry_body(0, None, 0x4010, 7, b"abc\0\x04\xC0\x01");
    assert_eq!(parse_file_header(body, 0).unwrap().candidate, None);
}

#[test]
fn large_entry_adds_the_high_word() {
    let body = entry_body(5, Some(2), 0x20, 0, b"");
    let entry = parse_file_header(body, 0x0100).unwrap();
    assert_eq!(entry.packed_size, 5 + 2 * 4294967296);
}

#[test]
fn largest_packed_size_fits() {
    let body = entry_body(0xFFFF_FFFF, Some(0xFFFF_FFFF), 0x20, 0, b"");
    let entry = parse_file_header(body, 0x8100).unwrap();
    assert_eq!(entry.packed_size, u64::MAX);
}

#[test]
fn high_word_is_read_only_with_the_flag() {
    let body = entry_body(5, Some(2), 0x20, 0, b"");
    let entry = parse_file_header(body, 0xFEFF).unwrap();
    assert_eq!(entry.packed_size, 5);
}

#[test]
fn large_directory_name_follows_the_high_word() {
    let body = entry_body(1, Some(1), 0x10, 7, b"abc\0\x04\xC0\x01");
    let entry = parse_file_header(body, 0x0100).unwrap();
    assert_eq!(entry.packed_size, 4294967297);
    assert_eq!(entry.candidate, Some("abc".to_string()));
}

#[test]
fn entry_shorter_than_its_fields_is_refused() {
    let mut body = entry_body(0, None, 0x20, 0, b"");
    assert_eq!(body.len(), 25);
    body.pop();
    assert_eq!(parse_file_header(body, 0).unwrap_err(), ScanError::Field(ReadError::OutOfBounds));
    assert_eq!(parse_file_header(Vec::new(), 0).unwrap_err(), ScanError::Field(ReadError::OutOfBounds));
}

#[test]
fn large_entry_without_high_word_is_refused() {
    let body = entry_body(0, None, 0x20, 0, b"");
    assert_eq!(parse_file_header(body, 0x0100).unwrap_err(), ScanError::Field(ReadError::OutOfBounds));
}

#[test]
fn directory_name_without_terminator_is_refused() {
    let r = parse_file_header(directory(b"abc"), 0);
    assert_eq!(r.unwrap_err(), ScanError::Field(ReadError::MissingTerminator));
}

#[test]
fn directory_name_longer_than_its_field_is_refused() {
    let body = entry_body(0, None, 0x10, 2, b"abc\0\x04\xC0\x01");
    let r = parse_file_header(body, 0);
    assert_eq!(r.unwrap_err(), ScanError::Field(ReadError::NegativeRemainder));
}

#[test]
fn directory_name_field_past_the_header_is_refused() {
    let body = entry_body(0, None, 0x10, 8, b"abc\0\x04\xC0\x01");
    let r = parse_file_header(body, 0);
    assert_eq!(r.unwrap_err(), ScanError::Field(ReadError::OutOfBounds));
}

#[test]
fn directory_without_encoded_name_is_refused() {
    let r = parse_file_header(directory(b"abc\0"), 0);
    assert_eq!(r.unwrap_err(), ScanError::Name(NameError::Empty));
}

#[test]
fn directory_with_truncated_encoded_name_is_refused() {
    let r = parse_file_header(directory(b"abc\0\x04\xC0"), 0);
    assert_eq!(r.unwrap_err(), ScanError::Name(NameError::Truncated));
}

#[test]
fn directory_with_overrunning_name_is_refused() {
    let r = parse_file_header(directory(b"abc\0\x04\xC0\x03"), 0);
    assert_eq!(r.unwrap_err(), ScanError::Name(NameError::Overrun));
}

#[test]
fn directory_with_surrogate_in_name_is_refused() {
    let r = parse_file_header(directory(b"a\0\xD8\x40\x00"), 0);
    assert_eq!(r.unwrap_err(), ScanError::Name(NameError::NotScalar));
}
