use rar_dirname::cursor::ReadError;
use rar_dirname::header::ScanError;
use rar_dirname::name::NameError;
use rar_dirname::scan::read_rar_file;
use rar_dirname::walker::is_signature;
use rar_dirname::walker::Step;
use rar_dirname::walker::Walker;

const SIGNATURE: [u8; 7] = [0x52, 0x61, 0x72, 0x21, 0x1A, 0x07, 0x00];

/// A block: the prefix with the given tag and flags, then `body`.
fn block(tag: u8, flags: u16, body: &[u8]) -> Vec<u8> {
    let mut bytes = vec![0xC4, 0x3D, tag];
    bytes.extend_from_slice(&flags.to_le_bytes());
    bytes.extend_from_slice(&((body.len() + 7) as u16).to_le_bytes());
    bytes.extend_from_slice(body);
    bytes
}

/// An entry block with `packed` bytes of data behind it.
fn entry(attributes: u32, name: &[u8], packed: &[u8]) -> Vec<u8> {
    let mut body = Vec::new();
    body.extend_from_slice(&(packed.len() as u32).to_le_bytes());
    body.extend_from_slice(&[0; 15]);
    body.extend_from_slice(&(name.len() as u16).to_le_bytes());
    body.extend_from_slice(&attributes.to_le_bytes());
    body.extend_from_slice(name);
    let mut bytes = block(0x74, 0x8000, &body);
    bytes.extend_from_slice(packed);
    bytes
}

/// A directory entry whose name is a copy of the ASCII `name`.
fn directory(name: &str) -> Vec<u8> {
    assert!(name.len() >= 2);
    let mut field = name.as_bytes().to_vec();
    field.push(0);
    field.extend_from_slice(&[0x00, 0xC0, (name.len() - 2) as u8]);
    entry(0x10, &field, &[])
}

fn end() -> Vec<u8> {
    block(0x7B, 0x4000, &[])
}

fn main_header() -> Vec<u8> {
    block(0x73, 0, &[0; 6])
}

fn archive(blocks: &[Vec<u8>]) -> Vec<u8> {
    let mut data = SIGNATURE.to_vec();
    for b in blocks {
        data.extend_from_slice(b);
    }
    data
}

/// Runs the walker over `data` the way an owner of a stream does.
fn drive(data: &[u8]) -> Result<Option<String>, ScanError> {
    let mut pos: usize = 0;
    let mut step = Walker::start();
    loop {
        match step {
            Step::Done(name) => return Ok(name),
            Step::Failed(e) => return Err(e),
            Step::Fetch { walker, skip, len } => {
                pos = pos.saturating_add(skip as usize).min(data.len());
                let end = pos.saturating_add(len).min(data.len());
                let bytes = data[pos..end].to_vec();
                pos = end;
                step = walker.feed(bytes);
            }
        }
    }
}

#[test]
fn signature_then_end_block_is_no_result() {
    let data = [0x52, 0x61, 0x72, 0x21, 0x1A, 0x07, 0x00, 0x00, 0x00, 0x7B, 0x00, 0x00, 0x07, 0x00];
    assert_eq!(read_rar_file(&data), Ok(None));
}

#[test]
fn end_block_needs_no_valid_size() {
    let data = [0x52, 0x61, 0x72, 0x21, 0x1A, 0x07, 0x00, 0x00, 0x00, 0x7B, 0x00, 0x00, 0x00, 0x00];
    assert_eq!(read_rar_file(&data), Ok(None));
}

#[test]
fn one_directory_is_the_result() {
    let data = archive(&[main_header(), directory("photos"), end()]);
    assert_eq!(read_rar_file(&data), Ok(Some("photos".to_string())));
}

#[test]
fn one_directory_among_files_is_the_result() {
    let data = archive(&[
        main_header(),
        entry(0x20, b"photos\\a.jpg", &[0xEE; 100]),
        directory("photos"),
        entry(0x20, b"photos\\b.jpg", &[0x7B; 33]),
        end(),
    ]);
    assert_eq!(read_rar_file(&data), Ok(Some("photos".to_string())));
}

#[test]
fn two_directories_are_no_result() {
    let data = archive(&[main_header(), directory("one"), directory("two"), end()]);
    assert_eq!(read_rar_file(&data), Ok(None));
}

#[test]
fn three_directories_are_no_result() {
    let data = archive(&[directory("one"), directory("two"), directory("three"), end()]);
    assert_eq!(read_rar_file(&data), Ok(None));
}

#[test]
fn files_alone_are_no_result() {
    let data = archive(&[main_header(), entry(0x20, b"a.txt", b"hello"), end()]);
    assert_eq!(read_rar_file(&data), Ok(None));
}

#[test]
fn nested_directory_does_not_count() {
    let data = archive(&[main_header(), directory("top"), directory("top\\sub"), end()]);
    assert_eq!(read_rar_file(&data), Ok(Some("top".to_string())));
}

#[test]
fn only_nested_directories_are_no_result() {
    let data = archive(&[main_header(), directory("a\\b"), end()]);
    assert_eq!(read_rar_file(&data), Ok(None));
}

#[test]
fn blocks_behind_the_end_block_are_not_read() {
    let mut data = archive(&[directory("only"), end(), directory("late")]);
    data.extend_from_slice(&[0xFF; 5]);
    assert_eq!(read_rar_file(&data), Ok(Some("only".to_string())));
}

#[test]
fn packed_data_is_skipped() {
    // The packed data looks like an end block and must not be read as one.
    let data = archive(&[entry(0x20, b"f", &end()), directory("dir"), end()]);
    assert_eq!(read_rar_file(&data), Ok(Some("dir".to_string())));
}

#[test]
fn service_payload_is_skipped() {
    let mut service = block(0x7A, 0, &[4, 0, 0, 0, 0xAA, 0xBB]);
    service.extend_from_slice(&[0x7B; 4]);
    let data = archive(&[main_header(), service, directory("dir"), end()]);
    assert_eq!(read_rar_file(&data), Ok(Some("dir".to_string())));
}

#[test]
fn service_block_without_length_is_refused() {
    let data = archive(&[block(0x7A, 0, &[1, 0, 0]), end()]);
    assert_eq!(read_rar_file(&data), Err(ScanError::Field(ReadError::OutOfBounds)));
}

#[test]
fn other_known_blocks_are_skipped() {
    let data = archive(&[
        block(0x72, 0, &[]),
        block(0x73, 0, &[0; 6]),
        block(0x75, 0, &[0x7B; 9]),
        block(0x76, 0, &[1]),
        block(0x77, 0, &[1, 2]),
        block(0x78, 0, &[1, 2, 3]),
        block(0x79, 0, &[]),
        directory("dir"),
        end(),
    ]);
    assert_eq!(read_rar_file(&data), Ok(Some("dir".to_string())));
}

#[test]
fn wrong_signature_is_a_mismatch() {
    let mut data = archive(&[end()]);
    data[6] = 0x01;
    assert_eq!(read_rar_file(&data), Err(ScanError::SignatureMismatch));
    assert_eq!(read_rar_file(b"PK\x03\x04 some other archive"), Err(ScanError::SignatureMismatch));
}

#[test]
fn short_stream_is_a_mismatch() {
    assert_eq!(read_rar_file(&[]), Err(ScanError::SignatureMismatch));
    assert_eq!(read_rar_file(&SIGNATURE[..6]), Err(ScanError::SignatureMismatch));
}

#[test]
fn stream_that_ends_behind_the_signature_is_truncated() {
    assert_eq!(read_rar_file(&SIGNATURE), Err(ScanError::Truncated));
}

#[test]
fn stream_that_ends_inside_a_prefix_is_truncated() {
    for cut in 1..7 {
        let mut data = archive(&[main_header()]);
        data.extend_from_slice(&end()[..cut]);
        assert_eq!(read_rar_file(&data), Err(ScanError::Truncated));
    }
}

#[test]
fn truncation_behind_a_directory_gives_no_name() {
    let mut data = archive(&[main_header(), directory("dir")]);
    assert_eq!(read_rar_file(&data), Err(ScanError::Truncated));
    data.extend_from_slice(&[0x00, 0x00, 0x7B]);
    assert_eq!(read_rar_file(&data), Err(ScanError::Truncated));
}

#[test]
fn stream_that_ends_inside_an_entry_header_is_truncated() {
    let mut data = archive(&[main_header(), directory("dir")]);
    data.truncate(data.len() - 1);
    assert_eq!(read_rar_file(&data), Err(ScanError::Truncated));
}

#[test]
fn stream_that_ends_inside_packed_data_is_truncated() {
    let mut data = archive(&[entry(0x20, b"f", &[0; 50])]);
    data.truncate(data.len() - 10);
    data.extend_from_slice(&end()[..5]);
    assert_eq!(read_rar_file(&data), Err(ScanError::Truncated));
}

#[test]
fn skip_far_past_the_stream_is_truncated() {
    let mut body = vec![0xFF; 4];
    body.extend_from_slice(&[0; 15]);
    body.extend_from_slice(&[0, 0]);
    body.extend_from_slice(&[0x20, 0, 0, 0]);
    body.extend_from_slice(&[0xFF; 4]);
    let data = archive(&[block(0x74, 0x0100, &body), end()]);
    assert_eq!(read_rar_file(&data), Err(ScanError::Truncated));
    assert_eq!(drive(&data), Err(ScanError::Truncated));
}

#[test]
fn unknown_tag_is_reported_with_its_offset() {
    let data = archive(&[main_header(), block(0x50, 0, &[])]);
    assert_eq!(read_rar_file(&data), Err(ScanError::UnknownTag { tag: 0x50, offset: 27 }));
    let data = archive(&[block(0x7C, 0, &[])]);
    assert_eq!(read_rar_file(&data), Err(ScanError::UnknownTag { tag: 0x7C, offset: 14 }));
    let data = archive(&[block(0x71, 0, &[])]);
    assert_eq!(read_rar_file(&data), Err(ScanError::UnknownTag { tag: 0x71, offset: 14 }));
}

#[test]
fn unknown_tag_behind_a_directory_gives_no_name() {
    let data = archive(&[directory("dir"), block(0x00, 0, &[]), end()]);
    let at = data.len() as u64 - 7;
    assert_eq!(read_rar_file(&data), Err(ScanError::UnknownTag { tag: 0x00, offset: at }));
}

#[test]
fn header_size_below_the_prefix_is_refused() {
    let mut data = SIGNATURE.to_vec();
    data.extend_from_slice(&[0, 0, 0x73, 0, 0, 6, 0]);
    data.extend_from_slice(&end());
    assert_eq!(read_rar_file(&data), Err(ScanError::HeaderSize));
    let mut data = SIGNATURE.to_vec();
    data.extend_from_slice(&[0, 0, 0x74, 0, 0, 0, 0]);
    assert_eq!(read_rar_file(&data), Err(ScanError::HeaderSize));
    let mut data = SIGNATURE.to_vec();
    data.extend_from_slice(&[0, 0, 0x7A, 0, 0, 3, 0]);
    assert_eq!(read_rar_file(&data), Err(ScanError::HeaderSize));
}

#[test]
fn entry_without_fields_is_refused() {
    let data = archive(&[block(0x74, 0, &[]), end()]);
    assert_eq!(read_rar_file(&data), Err(ScanError::Field(ReadError::OutOfBounds)));
}

#[test]
fn directory_with_bad_name_fails_the_scan() {
    let data = archive(&[directory("good"), entry(0x10, b"abc\0\x00\xC0\x09", &[]), end()]);
    assert_eq!(read_rar_file(&data), Err(ScanError::Name(NameError::Overrun)));
    let data = archive(&[entry(0x10, b"abc\0", &[]), end()]);
    assert_eq!(read_rar_file(&data), Err(ScanError::Name(NameError::Empty)));
    let data = archive(&[entry(0x10, b"abc", &[]), end()]);
    assert_eq!(read_rar_file(&data), Err(ScanError::Field(ReadError::MissingTerminator)));
}

#[test]
fn signature_is_recognised() {
    assert!(is_signature(&SIGNATURE));
    assert!(is_signature(b"Rar!\x1A\x07\x00"));
    assert!(!is_signature(b"Rar!\x1A\x07\x01"));
    assert!(!is_signature(b"Rar!\x1A\x07"));
    assert!(!is_signature(b"Rar!\x1A\x07\x00\x00"));
}

#[test]
fn walker_asks_for_the_signature_first() {
    match Walker::start() {
        Step::Fetch { skip, len, .. } => {
            assert_eq!(skip, 0);
            assert_eq!(len, 7);
        }
        other => panic!("unexpected step {:?}", other),
    }
}

#[test]
fn walker_requests_follow_the_blocks() {
    let walker = match Walker::start() {
        Step::Fetch { walker, .. } => walker,
        other => panic!("unexpected step {:?}", other),
    };
    // Behind the signature comes the prefix of the first block.
    let walker = match walker.feed(SIGNATURE.to_vec()) {
        Step::Fetch { walker, skip: 0, len: 7 } => walker,
        other => panic!("unexpected step {:?}", other),
    };
    // A block that is only skipped: its body is not read.
    let walker = match walker.feed(vec![0, 0, 0x73, 0, 0, 13, 0]) {
        Step::Fetch { walker, skip: 6, len: 7 } => walker,
        other => panic!("unexpected step {:?}", other),
    };
    // An entry: its header is read.
    let walker = match walker.feed(vec![0, 0, 0x74, 0, 0, 7 + 25, 0]) {
        Step::Fetch { walker, skip: 0, len: 25 } => walker,
        other => panic!("unexpected step {:?}", other),
    };
    // Its packed data is skipped on the way to the next prefix.
    let mut body = vec![0x10, 0x27, 0, 0];
    body.extend_from_slice(&[0; 21]);
    let walker = match walker.feed(body) {
        Step::Fetch { walker, skip: 10000, len: 7 } => walker,
        other => panic!("unexpected step {:?}", other),
    };
    // A service block: its header is read, its payload skipped.
    let walker = match walker.feed(vec![0, 0, 0x7A, 0, 0, 12, 0]) {
        Step::Fetch { walker, skip: 0, len: 5 } => walker,
        other => panic!("unexpected step {:?}", other),
    };
    let walker = match walker.feed(vec![0x00, 0x01, 0, 0, 0xAA]) {
        Step::Fetch { walker, skip: 256, len: 7 } => walker,
        other => panic!("unexpected step {:?}", other),
    };
    match walker.feed(vec![0, 0, 0x7B, 0, 0, 7, 0]) {
        Step::Done(None) => {}
        other => panic!("unexpected step {:?}", other),
    }
}

#[test]
fn walker_fails_on_a_short_delivery() {
    let walker = match Walker::start() {
        Step::Fetch { walker, .. } => walker,
        other => panic!("unexpected step {:?}", other),
    };
    let walker = match walker.feed(SIGNATURE.to_vec()) {
        Step::Fetch { walker, .. } => walker,
        other => panic!("unexpected step {:?}", other),
    };
    let walker = match walker.feed(vec![0, 0, 0x74, 0, 0, 40, 0]) {
        Step::Fetch { walker, skip: 0, len: 33 } => walker,
        other => panic!("unexpected step {:?}", other),
    };
    match walker.feed(vec![0; 32]) {
        Step::Failed(ScanError::Truncated) => {}
        other => panic!("unexpected step {:?}", other),
    }
}

#[test]
fn walker_reports_the_offset_behind_skipped_data() {
    let walker = match Walker::start() {
        Step::Fetch { walker, .. } => walker,
        other => panic!("unexpected step {:?}", other),
    };
    let walker = match walker.feed(SIGNATURE.to_vec()) {
        Step::Fetch { walker, .. } => walker,
        other => panic!("unexpected step {:?}", other),
    };
    let walker = match walker.feed(vec![0, 0, 0x72, 0, 0, 0x07, 0x01]) {
        Step::Fetch { walker, skip: 256, len: 7 } => walker,
        other => panic!("unexpected step {:?}", other),
    };
    match walker.feed(vec![0, 0, 0x99, 0, 0, 7, 0]) {
        Step::Failed(ScanError::UnknownTag { tag: 0x99, offset }) => assert_eq!(offset, 7 + 7 + 256 + 7),
        other => panic!("unexpected step {:?}", other),
    }
}

#[test]
fn driven_walker_agrees_with_the_scan() {
    let archives = [
        archive(&[end()]),
        archive(&[main_header(), directory("photos"), end()]),
        archive(&[directory("one"), entry(0x20, b"f", &[1, 2, 3]), directory("two"), end()]),
        archive(&[main_header(), directory("dir")]),
        archive(&[block(0x42, 0, &[])]),
        b"not an archive".to_vec(),
    ];
    for data in archives.iter() {
        assert_eq!(drive(data), read_rar_file(data));
    }
}
