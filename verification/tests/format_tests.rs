//! Tests of the format's stated properties: ordering, version defaults,
//! signature behaviour, bounds checks, error cases and kind handling.

use clf::{
    append_signature, pack_clf, ClfError, ClfKind, ClfReader, MissingOpIdPolicy, PackError,
    PackOptions,
};

fn packed(entries: &[(u32, Vec<u8>)]) -> Vec<u8> {
    pack_clf(entries, &PackOptions::default()).unwrap()
}

/// Code sections follow the requested order, not identifier order, while
/// op_ids() sorts.
#[test]
fn ordering_input_order_kept_op_ids_sorted() {
    let entries: Vec<(u32, Vec<u8>)> = vec![(1, b"b1".to_vec()), (50, b"b50".to_vec())];
    let reader = ClfReader::open(packed(&entries)).unwrap();

    let code = reader
        .build_code_section(&[50u32, 1], MissingOpIdPolicy::Fail)
        .unwrap();
    assert_eq!(code, b"b50b1");

    assert_eq!(reader.op_ids(), vec![1u32, 50]);
}

/// Fail policy names the missing identifier; Skip returns only present blobs.
#[test]
fn policy_divergence_fail_names_id_skip_keeps_present() {
    let entries: Vec<(u32, Vec<u8>)> = vec![(1, b"one".to_vec())];
    let reader = ClfReader::open(packed(&entries)).unwrap();

    let err = reader
        .build_code_section(&[1u32, 99], MissingOpIdPolicy::Fail)
        .unwrap_err();
    assert_eq!(err, ClfError::MissingOpId(99));

    let code = reader
        .build_code_section(&[1u32, 99], MissingOpIdPolicy::Skip)
        .unwrap();
    assert_eq!(code, b"one");
}

/// A version-1 container reports the documented defaults: empty target,
/// alignment 0, kind Compute — whatever a version-2 writer would have stored.
#[test]
fn version1_reports_defaults() {
    let mut bytes: Vec<u8> = Vec::new();
    bytes.extend_from_slice(&[0x43, 0x4C, 0x46, 0x31]); // magic
    bytes.push(1u8); // version 1
    bytes.extend_from_slice(&2u32.to_le_bytes()); // vendor length
    bytes.extend_from_slice(b"hi");
    bytes.extend_from_slice(&0u32.to_le_bytes()); // manifest count 0

    let reader = ClfReader::open(bytes).unwrap();
    assert_eq!(reader.header.version, 1);
    assert_eq!(reader.header.vendor, "hi");
    assert_eq!(reader.header.target, "");
    assert_eq!(reader.header.blob_alignment, 0);
    assert_eq!(reader.header.kind, ClfKind::Compute);
}

/// Unsupported version byte is rejected with both versions named.
#[test]
fn version_too_new_rejected() {
    let mut bytes: Vec<u8> = Vec::new();
    bytes.extend_from_slice(&[0x43, 0x4C, 0x46, 0x31]);
    bytes.push(9u8);
    bytes.extend_from_slice(&0u32.to_le_bytes());

    let err = ClfReader::open(bytes).unwrap_err();
    assert_eq!(err, ClfError::UnsupportedVersion(9, 2));
}

/// A vendor that is not valid UTF-8 is rejected.
#[test]
fn invalid_vendor_utf8_rejected() {
    let mut bytes: Vec<u8> = Vec::new();
    bytes.extend_from_slice(&[0x43, 0x4C, 0x46, 0x31]);
    bytes.push(1u8);
    bytes.extend_from_slice(&1u32.to_le_bytes());
    bytes.push(0xFF); // not UTF-8
    bytes.extend_from_slice(&0u32.to_le_bytes());

    let err = ClfReader::open(bytes).unwrap_err();
    assert_eq!(err, ClfError::InvalidVendorUtf8);
}

/// Opening with an expected kind rejects a container of another kind.
#[test]
fn kind_mismatch_rejected() {
    let options = PackOptions {
        kind: ClfKind::MemoryMovement,
        ..PackOptions::default()
    };
    let bytes = pack_clf(&[(1u32, b"x".to_vec())], &options).unwrap();

    let err =
        ClfReader::open_with_expected_kind(bytes.clone(), Some(ClfKind::Compute)).unwrap_err();
    assert_eq!(
        err,
        ClfError::KindMismatch {
            expected: ClfKind::Compute,
            actual: ClfKind::MemoryMovement,
        }
    );

    let reader =
        ClfReader::open_with_expected_kind(bytes, Some(ClfKind::MemoryMovement)).unwrap();
    assert_eq!(reader.header.kind, ClfKind::MemoryMovement);
}

/// A manifest entry reaching past the blob store is data corruption, reported
/// as such rather than read out of bounds.
#[test]
fn bounds_violation_detected_per_lookup() {
    let mut bytes: Vec<u8> = Vec::new();
    bytes.extend_from_slice(&[0x43, 0x4C, 0x46, 0x31]);
    bytes.push(1u8);
    bytes.extend_from_slice(&0u32.to_le_bytes()); // vendor empty
    bytes.extend_from_slice(&1u32.to_le_bytes()); // one manifest entry
    bytes.extend_from_slice(&7u32.to_le_bytes()); // op_id 7
    bytes.extend_from_slice(&0u32.to_le_bytes()); // offset 0
    bytes.extend_from_slice(&100u32.to_le_bytes()); // size 100: past the store
    bytes.extend_from_slice(b"abc"); // blob store holds 3 bytes

    let reader = ClfReader::open(bytes).unwrap();
    let err = reader.get_blob(7).unwrap_err();
    assert_eq!(err, ClfError::BlobOutOfBounds);
    // Another identifier is simply absent.
    assert!(reader.get_blob(8).unwrap().is_none());
}

/// Packing two entries with one identifier fails, naming the identifier.
#[test]
fn duplicate_op_id_rejected() {
    let entries: Vec<(u32, Vec<u8>)> = vec![(5, b"a".to_vec()), (5, b"b".to_vec())];
    let err = pack_clf(&entries, &PackOptions::default()).unwrap_err();
    assert_eq!(err, PackError::DuplicateOpId(5));
}

/// An unsigned container verifies as false (no signature present); a tampered
/// signed container is an integrity error, a stronger signal than absence.
#[test]
fn signature_absent_vs_tampered() {
    let entries: Vec<(u32, Vec<u8>)> = vec![(1, b"payload".to_vec())];

    // Unsigned: no signature block, verification is a plain false.
    let mut unsigned = ClfReader::open(packed(&entries)).unwrap();
    assert_eq!(unsigned.verify_signature().unwrap(), false);
    assert!(!unsigned.signature_verified());

    // Signed, then one bit flipped before the block: integrity error.
    let mut tampered = packed(&entries);
    append_signature(&mut tampered);
    let blob_byte = tampered.len() - 36 - 1; // last byte of the blob store
    tampered[blob_byte] ^= 0x01;
    let mut reader = ClfReader::open(tampered).unwrap();
    let err = reader.verify_signature().unwrap_err();
    assert_eq!(err, ClfError::SignatureInvalid);
    assert!(!reader.signature_verified());

    // A tail that does not carry the signature magic is mere data: false.
    let mut no_magic = packed(&entries);
    append_signature(&mut no_magic);
    let magic_byte = no_magic.len() - 36;
    no_magic[magic_byte] = b'X';
    let mut reader2 = ClfReader::open(no_magic).unwrap();
    assert_eq!(reader2.verify_signature().unwrap(), false);
}

/// The signature block holds the real SHA-256 of the preceding bytes.
#[test]
fn signature_is_sha256_of_prefix() {
    let mut data: Vec<u8> = b"abc".to_vec();
    append_signature(&mut data);
    assert_eq!(&data[..3], b"abc");
    assert_eq!(&data[3..7], b"SIG0");
    // SHA-256("abc"), a published test vector.
    let expected: [u8; 32] = [
        0xba, 0x78, 0x16, 0xbf, 0x8f, 0x01, 0xcf, 0xea, 0x41, 0x41, 0x40, 0xde, 0x5d, 0xae,
        0x22, 0x23, 0xb0, 0x03, 0x61, 0xa3, 0x96, 0x17, 0x7a, 0x9c, 0xb4, 0x10, 0xff, 0x61,
        0xf2, 0x00, 0x15, 0xad,
    ];
    assert_eq!(&data[7..], &expected);
}

/// With alignment, a middle blob is padded so the next starts aligned, and
/// the last blob is padded too (padding applies uniformly).
#[test]
fn alignment_pads_middle_and_last_blob() {
    let entries: Vec<(u32, Vec<u8>)> = vec![(1, vec![0xAA; 3]), (2, vec![0xBB; 17])];
    let options = PackOptions {
        blob_alignment: 16,
        ..PackOptions::default()
    };
    let bytes = pack_clf(&entries, &options).unwrap();
    let reader = ClfReader::open(bytes).unwrap();

    let b1 = reader.get_blob(1).unwrap().unwrap();
    assert_eq!(b1.len(), 16);
    assert_eq!(&b1[..3], &[0xAA; 3]);
    assert_eq!(&b1[3..], &[0u8; 13]);

    let b2 = reader.get_blob(2).unwrap().unwrap();
    assert_eq!(b2.len(), 32);
    assert_eq!(&b2[..17], &[0xBB; 17]);
    assert_eq!(&b2[17..], &[0u8; 15]);
}

/// A crafted container that repeats an identifier behaves last-write-wins,
/// like inserting into a map in manifest order.
#[test]
fn duplicate_manifest_entries_last_write_wins() {
    let mut bytes: Vec<u8> = Vec::new();
    bytes.extend_from_slice(&[0x43, 0x4C, 0x46, 0x31]);
    bytes.push(1u8);
    bytes.extend_from_slice(&0u32.to_le_bytes()); // vendor empty
    bytes.extend_from_slice(&2u32.to_le_bytes()); // two entries, same op_id
    bytes.extend_from_slice(&7u32.to_le_bytes());
    bytes.extend_from_slice(&0u32.to_le_bytes()); // first: offset 0
    bytes.extend_from_slice(&1u32.to_le_bytes()); // size 1
    bytes.extend_from_slice(&7u32.to_le_bytes());
    bytes.extend_from_slice(&1u32.to_le_bytes()); // second: offset 1
    bytes.extend_from_slice(&1u32.to_le_bytes()); // size 1
    bytes.extend_from_slice(b"AB");

    let reader = ClfReader::open(bytes).unwrap();
    let blob = reader.get_blob(7).unwrap().unwrap();
    assert_eq!(blob, b"B"); // the later entry wins
    assert_eq!(reader.op_ids(), vec![7u32]);
}

/// A non-ASCII vendor string survives the UTF-8 round trip.
#[test]
fn vendor_utf8_round_trip() {
    let options = PackOptions {
        vendor: "caf\u{e9} \u{2603}".to_string(),
        ..PackOptions::default()
    };
    let bytes = pack_clf(&[(1u32, b"x".to_vec())], &options).unwrap();
    let reader = ClfReader::open(bytes).unwrap();
    assert_eq!(reader.header.vendor, "caf\u{e9} \u{2603}");
}

/// Kind bytes and extensions map as documented; invalid bytes fall back to
/// Compute.
#[test]
fn kind_bytes_and_extensions() {
    assert_eq!(ClfKind::from_byte(0), ClfKind::Compute);
    assert_eq!(ClfKind::from_byte(1), ClfKind::MemoryMovement);
    assert_eq!(ClfKind::from_byte(2), ClfKind::MemoryProtection);
    assert_eq!(ClfKind::from_byte(200), ClfKind::Compute);
    assert_eq!(ClfKind::default_for_v1(), ClfKind::Compute);
    assert_eq!(ClfKind::Compute.to_byte(), 0);
    assert_eq!(ClfKind::MemoryMovement.to_byte(), 1);
    assert_eq!(ClfKind::MemoryProtection.to_byte(), 2);
    assert_eq!(ClfKind::Compute.extension(), "clfc");
    assert_eq!(ClfKind::MemoryMovement.extension(), "clfmm");
    assert_eq!(ClfKind::MemoryProtection.extension(), "clfmp");
}

/// A signed container still serves blobs after verification, and verifies
/// as true on untampered bytes.
#[test]
fn signed_round_trip_verifies_true() {
    let entries: Vec<(u32, Vec<u8>)> = vec![(3, b"kernel".to_vec()), (4, b"data".to_vec())];
    let mut bytes = packed(&entries);
    append_signature(&mut bytes);

    let mut reader = ClfReader::open(bytes).unwrap();
    assert_eq!(reader.verify_signature().unwrap(), true);
    assert!(reader.signature_verified());
    assert_eq!(reader.get_blob(3).unwrap().unwrap(), b"kernel");
    assert_eq!(reader.get_blob(4).unwrap().unwrap(), b"data");
}
