//! Packer tests: produce a container and read it back with the reader.

use clf::{append_signature, pack_clf, ClfKind, ClfReader, PackOptions};

/// Produce a container in memory (two blobs), then read it back and verify blobs.
#[test]
fn packer_produce_and_read_back() {
    let entries: Vec<(u32, Vec<u8>)> = vec![
        (1, vec![0x01, 0x02, 0x03]),
        (50, vec![0x50, 0x51, 0x52, 0x53]),
    ];
    let options = PackOptions {
        vendor: "packer-test".to_string(),
        target: String::new(),
        blob_alignment: 0,
        kind: ClfKind::Compute,
        version: 1,
        sign: false,
    };

    let bytes = pack_clf(&entries, &options).unwrap();

    let reader = ClfReader::open(bytes).unwrap();
    assert_eq!(reader.header.vendor, "packer-test");

    let b1 = reader.get_blob(1).unwrap().unwrap();
    assert_eq!(b1, &[0x01, 0x02, 0x03]);

    let b50 = reader.get_blob(50).unwrap().unwrap();
    assert_eq!(b50, &[0x50, 0x51, 0x52, 0x53]);
}

/// Produce a signed container and verify the signature when reading.
#[test]
fn packer_signed_and_verify() {
    let entries: Vec<(u32, Vec<u8>)> = vec![(10, b"relu_kernel".to_vec())];
    let options = PackOptions {
        vendor: String::new(),
        target: String::new(),
        blob_alignment: 0,
        kind: ClfKind::Compute,
        version: 1,
        sign: true,
    };

    let mut bytes = pack_clf(&entries, &options).unwrap();
    append_signature(&mut bytes);

    let mut reader = ClfReader::open(bytes).unwrap();
    let blob = reader.get_blob(10).unwrap().unwrap();
    assert_eq!(blob, b"relu_kernel");
    let ok = reader.verify_signature().unwrap();
    assert!(ok);
    assert!(reader.signature_verified());
}

/// Produce a container with blob alignment 16; the reader returns the stored
/// (padded) blob.
#[test]
fn packer_blob_alignment() {
    let entries: Vec<(u32, Vec<u8>)> = vec![(1, vec![0x01, 0x02])]; // 2 bytes
    let options = PackOptions {
        vendor: String::new(),
        target: String::new(),
        blob_alignment: 16,
        kind: ClfKind::Compute,
        version: 2,
        sign: false,
    };

    let bytes = pack_clf(&entries, &options).unwrap();

    let reader = ClfReader::open(bytes).unwrap();
    assert_eq!(reader.header.blob_alignment, 16);
    let blob = reader.get_blob(1).unwrap().unwrap();
    assert_eq!(blob.len(), 16); // padded to 16
    assert_eq!(&blob[..2], &[0x01, 0x02]);
}
