//! CLF binary format types and constants.
//!
//! Defines the header layout, manifest entries, and magic/signature constants
//! for the CLF container format. All multi-byte fields are little-endian.

use vstd::prelude::*;

verus! {

/// Current format version written by the packer; readers reject version > CLF_VERSION.
/// Version 1 = header with vendor only; target, alignment and kind default.
/// Version 2 = header with target, blob alignment and kind fields.
pub const CLF_VERSION: u8 = 2;

/// Length of the SHA-256 digest in the signature block, in bytes.
pub const SIG_HASH_LEN: usize = 32;

/// Total signature block size: 4 magic bytes + the digest.
pub const SIG_BLOCK_LEN: usize = 36;

/// No blob alignment (blobs stored back-to-back).
pub const BLOB_ALIGN_NONE: u8 = 0;

/// Common alignment for machine code, offered as a convenience default.
pub const BLOB_ALIGN_CODE: u8 = 16;

/// Size of one manifest entry in the file: op_id (4) + offset (4) + size (4).
pub const MANIFEST_ENTRY_SIZE: usize = 12;

/// Magic bytes at the start of every CLF container: "CLF1".
pub open spec fn spec_clf_magic() -> Seq<u8> {
    seq![0x43u8, 0x4Cu8, 0x46u8, 0x31u8]
}

/// Magic bytes that open a trailing signature block: "SIG0".
pub open spec fn spec_sig_magic() -> Seq<u8> {
    seq![0x53u8, 0x49u8, 0x47u8, 0x30u8]
}

/// The container magic as owned bytes, for writers and for crafting test inputs.
pub fn clf_magic() -> (m: Vec<u8>)
    ensures
        m@ == spec_clf_magic(),
{
    let mut m: Vec<u8> = Vec::new();
    m.push(0x43);
    m.push(0x4C);
    m.push(0x46);
    m.push(0x31);
    proof {
        assert(m@ =~= spec_clf_magic());
    }
    m
}

/// The signature magic as owned bytes.
pub fn sig_magic() -> (m: Vec<u8>)
    ensures
        m@ == spec_sig_magic(),
{
    let mut m: Vec<u8> = Vec::new();
    m.push(0x53);
    m.push(0x49);
    m.push(0x47);
    m.push(0x30);
    proof {
        assert(m@ =~= spec_sig_magic());
    }
    m
}

/// CLF file kind: the role of the container, used for discovery and routing
/// via extensions (.clfc, .clfmm, .clfmp). Advisory metadata, not structural.
#[derive(Debug, Clone, Copy, PartialEq, Eq, Structural)]
pub enum ClfKind {
    /// Compute kernels: op_id maps to machine code blobs for execution.
    Compute,
    /// Memory movement: blobs for memory copy/move operations.
    MemoryMovement,
    /// Memory protection: blobs for region protection setup.
    MemoryProtection,
}

/// The byte a kind is stored as in a version-2 header.
pub open spec fn spec_kind_byte(k: ClfKind) -> u8 {
    match k {
        ClfKind::Compute => 0,
        ClfKind::MemoryMovement => 1,
        ClfKind::MemoryProtection => 2,
    }
}

/// The kind a stored byte decodes to: invalid values fall back to Compute.
pub open spec fn spec_kind_from_byte(b: u8) -> ClfKind {
    if b == 1 {
        ClfKind::MemoryMovement
    } else if b == 2 {
        ClfKind::MemoryProtection
    } else {
        ClfKind::Compute
    }
}

impl ClfKind {
    /// Default kind for version-1 containers, which store no kind byte.
    pub fn default_for_v1() -> (k: Self)
        ensures
            k == ClfKind::Compute,
    {
        ClfKind::Compute
    }

    /// Parse from a byte; invalid values default to Compute for robustness.
    pub fn from_byte(b: u8) -> (k: Self)
        ensures
            k == spec_kind_from_byte(b),
    {
        match b {
            1 => ClfKind::MemoryMovement,
            2 => ClfKind::MemoryProtection,
            _ => ClfKind::Compute,
        }
    }

    /// The byte this kind is stored as.
    pub fn to_byte(&self) -> (b: u8)
        ensures
            b == spec_kind_byte(*self),
    {
        match self {
            ClfKind::Compute => 0,
            ClfKind::MemoryMovement => 1,
            ClfKind::MemoryProtection => 2,
        }
    }

    /// File extension for this kind (for discovery/routing).
    pub fn extension(&self) -> (e: &'static str)
        ensures
            e@ == spec_kind_extension(*self),
    {
        match self {
            ClfKind::Compute => "clfc",
            ClfKind::MemoryMovement => "clfmm",
            ClfKind::MemoryProtection => "clfmp",
        }
    }
}

/// The extension string of each kind.
pub open spec fn spec_kind_extension(k: ClfKind) -> Seq<char> {
    match k {
        ClfKind::Compute => "clfc"@,
        ClfKind::MemoryMovement => "clfmm"@,
        ClfKind::MemoryProtection => "clfmp"@,
    }
}

/// Parsed CLF header (magic, version, vendor, target, alignment, kind).
#[derive(Debug, Clone)]
pub struct ClfHeader {
    /// Format version (at most CLF_VERSION).
    pub version: u8,
    /// Vendor identifier (UTF-8); display/audit only.
    pub vendor: String,
    /// Target/architecture tag; empty if not set (always empty in version 1).
    pub target: String,
    /// Blob alignment in bytes (0 = no alignment). The producer pads blobs to
    /// this alignment in the blob store.
    pub blob_alignment: u8,
    /// File kind. Version 1 containers default to Compute.
    pub kind: ClfKind,
    /// Byte offset in the container where the header ends (start of manifest).
    pub header_end: u64,
}

/// Single manifest entry: op_id with its (offset, size) into the blob store.
#[derive(Debug, Clone, Copy, PartialEq, Eq, Structural)]
pub struct ManifestEntry {
    /// Canonical operation identifier.
    pub op_id: u32,
    /// Offset from the start of the blob store, in bytes.
    pub offset: u32,
    /// Stored blob length in bytes (padding included).
    pub size: u32,
}

} // verus!
