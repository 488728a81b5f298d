//! Integration test: build a code section from a container with a matching
//! target, as a packaging pipeline would.

use clf::{pack_clf, ClfKind, ClfReader, MissingOpIdPolicy, PackOptions, CLF_VERSION};

/// Pack a minimal container (target CPU, two blobs), open it, build a code
/// section from op_ids [1, 50] (execution order), and check the section holds
/// both blobs.
#[test]
fn packager_clf_backend_produces_non_empty_code() {
    let entries: Vec<(u32, Vec<u8>)> = vec![
        (1, b"add_kernel".to_vec()),
        (50, b"matmul_kernel".to_vec()),
    ];
    let options = PackOptions {
        vendor: "integration-test".to_string(),
        target: "CPU".to_string(),
        blob_alignment: 0,
        kind: ClfKind::Compute,
        version: CLF_VERSION,
        sign: false,
    };

    let bytes = pack_clf(&entries, &options).unwrap();

    let reader = ClfReader::open(bytes).unwrap();
    assert_eq!(reader.header.target, "CPU");

    // Execution-order op_ids for a tiny "model".
    let op_ids = [1u32, 50];
    let code = reader
        .build_code_section(&op_ids, MissingOpIdPolicy::Fail)
        .unwrap();

    assert!(
        !code.is_empty(),
        "code section must be non-empty when CLF has both ops"
    );
    assert!(code.starts_with(b"add_kernel"));
    assert!(code.ends_with(b"matmul_kernel"));
}
