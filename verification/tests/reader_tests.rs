//! Reader tests: parse a minimal container and get blobs for two op_ids.

use clf::{pack_clf, ClfError, ClfReader, MissingOpIdPolicy, PackOptions};

/// Build a minimal container in memory (op_id 1 and 50, fake blobs), then
/// open it and fetch blobs.
#[test]
fn reader_parse_minimal_and_get_blob() {
    let entries: Vec<(u32, Vec<u8>)> = vec![
        (1, b"blob_for_add".to_vec()),
        (50, b"blob_for_matmul".to_vec()),
    ];
    let options = PackOptions {
        vendor: "test-vendor".to_string(),
        version: 1,
        ..PackOptions::default()
    };

    let bytes = pack_clf(&entries, &options).unwrap();
    let reader = ClfReader::open(bytes).unwrap();

    assert_eq!(reader.header.version, 1);
    assert_eq!(reader.header.vendor, "test-vendor");
    assert!(reader.op_ids().contains(&1));
    assert!(reader.op_ids().contains(&50));

    let blob1 = reader.get_blob(1).unwrap().unwrap();
    assert_eq!(blob1, b"blob_for_add");

    let blob50 = reader.get_blob(50).unwrap().unwrap();
    assert_eq!(blob50, b"blob_for_matmul");

    let missing = reader.get_blob(99).unwrap();
    assert!(missing.is_none());
}

/// Invalid magic gives a clear error.
#[test]
fn reader_invalid_magic() {
    let mut bytes: Vec<u8> = Vec::new();
    bytes.extend_from_slice(b"XXXX"); // wrong magic
    bytes.push(1u8);
    bytes.extend_from_slice(&0u16.to_le_bytes());

    match ClfReader::open(bytes) {
        Ok(_) => panic!("expected invalid magic error"),
        Err(e) => assert_eq!(e, ClfError::InvalidMagic),
    }
}

/// Truncated input (no manifest) gives an error.
#[test]
fn reader_truncated_file() {
    let mut bytes: Vec<u8> = Vec::new();
    bytes.extend_from_slice(&[0x43, 0x4C, 0x46, 0x31]); // magic "CLF1"
    bytes.push(1u8);
    bytes.extend_from_slice(&0u16.to_le_bytes()); // vendor len 0 (half of it)
    bytes.extend_from_slice(&0u16.to_le_bytes());
    bytes.push(0u8);
    // No manifest count: parsing must fail.

    match ClfReader::open(bytes) {
        Ok(_) => panic!("expected truncated file error"),
        Err(_) => {},
    }
}

/// build_code_section with Fail policy: a missing op_id returns an error.
#[test]
fn reader_build_code_section_fail_on_missing() {
    let entries: Vec<(u32, Vec<u8>)> = vec![(1, b"a".to_vec())];
    let options = PackOptions::default();
    let bytes = pack_clf(&entries, &options).unwrap();

    let reader = ClfReader::open(bytes).unwrap();
    let op_ids = [1u32, 99]; // 99 not in the container
    let err = reader
        .build_code_section(&op_ids, MissingOpIdPolicy::Fail)
        .unwrap_err();
    assert_eq!(err, ClfError::MissingOpId(99));
}

/// build_code_section with Skip policy: a missing op_id is skipped.
#[test]
fn reader_build_code_section_skip_missing() {
    let entries: Vec<(u32, Vec<u8>)> = vec![(1, b"a".to_vec())];
    let options = PackOptions::default();
    let bytes = pack_clf(&entries, &options).unwrap();

    let reader = ClfReader::open(bytes).unwrap();
    let op_ids = [99u32, 1]; // 99 missing, 1 present
    let code = reader
        .build_code_section(&op_ids, MissingOpIdPolicy::Skip)
        .unwrap();
    assert_eq!(code, b"a");
}
