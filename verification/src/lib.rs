//! Reader and packer for the CLF container format: a small, versioned binary
//! layout that maps integer operation identifiers to opaque binary payloads
//! ("blobs"), with an optional vendor/target descriptor, optional blob
//! alignment padding, and an optional trailing SHA-256 integrity signature.
//!
//! - [`format`]: header and manifest shapes, magic and version constants.
//! - [`packer`]: build a container from `(op_id, blob)` pairs.
//! - [`reader`]: open a container, look blobs up, build code sections.

pub mod codec;
pub mod format;
pub mod hash;
pub mod laws;
pub mod packer;
pub mod reader;

pub use codec::ClfError;
pub use format::{
    clf_magic, sig_magic, ClfHeader, ClfKind, ManifestEntry, BLOB_ALIGN_CODE, BLOB_ALIGN_NONE,
    CLF_VERSION, SIG_BLOCK_LEN, SIG_HASH_LEN,
};
pub use packer::{append_signature, pack_clf, PackError, PackOptions};
pub use reader::{ClfReader, MissingOpIdPolicy};
