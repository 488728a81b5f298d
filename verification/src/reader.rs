//! CLF reader: open a container, parse header and manifest, serve blobs.
//!
//! The reader holds the container's bytes and never re-reads them from the
//! outside, so every lookup is bounds-checked against the blob store's
//! recorded length. Opening validates magic, version and strings; blobs are
//! served by `get_blob`, ordered concatenations by `build_code_section`.

use vstd::bytes::{spec_u32_from_le_bytes, u32_from_le_bytes};
use vstd::prelude::*;
use vstd::slice::{slice_subrange, slice_to_vec};
use vstd::utf8::{decode_utf8, valid_utf8};

use crate::codec::{
    spec_parse, spec_parse_header, spec_parse_manifest, spec_parse_with, spec_store_avail,
    lemma_parse_bounds, lemma_parse_with_to_plain, ClfError, HeaderModel,
};
use crate::format::{
    sig_magic, spec_clf_magic, spec_sig_magic, ClfHeader, ClfKind, ManifestEntry, CLF_VERSION,
};
use crate::hash::{sha256, sha256_of};

verus! {

/// Policy when an op_id requested for a code section is not in the container:
/// fail the whole build, or skip the identifier and keep going.
#[derive(Debug, Clone, Copy, PartialEq, Eq, Structural)]
pub enum MissingOpIdPolicy {
    /// If any op_id is missing, return an error. Use when the container must
    /// fully cover the request.
    Fail,
    /// If an op_id is missing, skip it (append nothing). Use for partial code.
    Skip,
}

/// Relies on String::from_utf8: it succeeds exactly on valid UTF-8 input and
/// returns the string those bytes encode.
#[verifier::external_body]
fn bytes_to_string(v: Vec<u8>) -> (r: Option<String>)
    ensures
        match r {
            Some(s) => valid_utf8(v@) && s@ == decode_utf8(v@),
            None => !valid_utf8(v@),
        },
{
    match String::from_utf8(v) {
        Ok(s) => Some(s),
        Err(_) => None,
    }
}

/// Read the little-endian u32 at `pos`.
fn read_u32_at(data: &Vec<u8>, pos: usize) -> (r: u32)
    requires
        pos + 4 <= data@.len(),
    ensures
        r == spec_u32_from_le_bytes(data@.subrange(pos as int, pos as int + 4)),
{
    let _n: usize = data.len();
    u32_from_le_bytes(slice_subrange(data.as_slice(), pos, pos + 4))
}

/// Copy the bytes in `[start, end)` out of the container.
fn copy_range(data: &Vec<u8>, start: usize, end: usize) -> (r: Vec<u8>)
    requires
        start <= end <= data@.len(),
    ensures
        r@ == data@.subrange(start as int, end as int),
{
    slice_to_vec(slice_subrange(data.as_slice(), start, end))
}

/// Byte-for-byte equality of two slices.
fn bytes_eq(a: &[u8], b: &[u8]) -> (r: bool)
    ensures
        r == (a@ == b@),
{
    if a.len() != b.len() {
        proof {
            assert(a@ != b@);
        }
        return false;
    }
    let n: usize = a.len();
    let mut k: usize = 0;
    while k < n
        invariant
            k <= n,
            n == a@.len() == b@.len(),
            forall|i: int| 0 <= i < k ==> a@[i] == b@[i],
        decreases n - k,
    {
        if a[k] != b[k] {
            proof {
                assert(a@ != b@);
            }
            return false;
        }
        k = k + 1;
    }
    proof {
        assert(a@ =~= b@);
    }
    true
}

/// The manifest entry a lookup finds: the **last** entry with the given
/// op_id, so a crafted container with duplicate identifiers behaves
/// last-write-wins (a packed container never holds duplicates).
pub open spec fn spec_lookup(ms: Seq<ManifestEntry>, op_id: u32) -> Option<ManifestEntry>
    decreases ms.len(),
{
    if ms.len() == 0 {
        None
    } else if ms.last().op_id == op_id {
        Some(ms.last())
    } else {
        spec_lookup(ms.drop_last(), op_id)
    }
}

/// A reader with a parsed header and manifest over an in-memory container.
///
/// The fields are tied together by `wf()`: they are exactly what
/// `spec_parse` decodes from `data`. Mutating fields directly voids that
/// relation; readers are built by `open`.
#[derive(Debug)]
pub struct ClfReader {
    /// Parsed header (version, vendor, target, alignment, kind).
    pub header: ClfHeader,
    /// Manifest entries in container order.
    pub manifest: Vec<ManifestEntry>,
    /// The container's bytes, signature block included when present.
    pub data: Vec<u8>,
    /// Byte offset in the container where the blob store starts.
    pub blob_store_offset: usize,
    /// Logical length of the blob store (signature block excluded).
    pub blob_store_len: usize,
    /// Set once `verify_signature` has succeeded.
    pub signature_verified: bool,
}

impl ClfReader {
    /// The reader's fields are what its bytes decode to.
    pub open spec fn wf(self) -> bool {
        match spec_parse(self.data@) {
            Ok(p) => {
                &&& self.header.version == p.header.version
                &&& self.header.vendor@ == decode_utf8(p.header.vendor)
                &&& self.header.target@ == decode_utf8(p.header.target)
                &&& self.header.blob_alignment == p.header.blob_alignment
                &&& self.header.kind == p.header.kind
                &&& self.header.header_end == p.header.header_end
                &&& self.manifest@ == p.manifest
                &&& self.blob_store_offset == p.blob_store_offset
                &&& self.blob_store_len == p.blob_store_len
            },
            Err(_) => false,
        }
    }

    /// What `get_blob` returns: the last manifest entry for the identifier,
    /// bounds-checked against the blob store, then the stored bytes.
    pub open spec fn spec_get_blob(self, op_id: u32) -> Result<Option<Seq<u8>>, ClfError> {
        match spec_lookup(self.manifest@, op_id) {
            None => Ok(None),
            Some(e) => if e.offset + e.size <= self.blob_store_len {
                Ok(
                    Some(
                        self.data@.subrange(
                            self.blob_store_offset + e.offset,
                            self.blob_store_offset + e.offset + e.size,
                        ),
                    ),
                )
            } else {
                Err(ClfError::BlobOutOfBounds)
            },
        }
    }

    /// Open a container from its bytes and parse header + manifest. Does not
    /// verify the signature. For kind validation, use
    /// `open_with_expected_kind`.
    pub fn open(data: Vec<u8>) -> (r: Result<ClfReader, ClfError>)
        ensures
            match spec_parse(data@) {
                Err(e) => r == Err::<ClfReader, ClfError>(e),
                Ok(p) => {
                    &&& r matches Ok(reader)
                    &&& reader.wf()
                    &&& reader.data@ == data@
                    &&& !reader.signature_verified
                },
            },
    {
        Self::open_with_expected_kind(data, None)
    }

    /// Open a container from its bytes. When `expected_kind` is `Some(k)`,
    /// rejects the container if the header kind differs, after the header is
    /// parsed and before the manifest is read.
    pub fn open_with_expected_kind(data: Vec<u8>, expected_kind: Option<ClfKind>) -> (r: Result<
        ClfReader,
        ClfError,
    >)
        ensures
            match spec_parse_with(data@, expected_kind) {
                Err(e) => r == Err::<ClfReader, ClfError>(e),
                Ok(p) => {
                    &&& r matches Ok(reader)
                    &&& reader.wf()
                    &&& reader.data@ == data@
                    &&& !reader.signature_verified
                },
            },
    {
        let n: usize = data.len();

        // --- Magic ---
        if n < 4 {
            return Err(ClfError::Truncated);
        }
        if !(data[0] == 0x43 && data[1] == 0x4C && data[2] == 0x46 && data[3] == 0x31) {
            proof {
                assert(data@.subrange(0, 4) != spec_clf_magic()) by {
                    assert(data@.subrange(0, 4)[0] == data@[0]);
                    assert(data@.subrange(0, 4)[1] == data@[1]);
                    assert(data@.subrange(0, 4)[2] == data@[2]);
                    assert(data@.subrange(0, 4)[3] == data@[3]);
                }
            }
            return Err(ClfError::InvalidMagic);
        }
        proof {
            assert(data@.subrange(0, 4) =~= spec_clf_magic());
        }

        // --- Version ---
        if n < 5 {
            return Err(ClfError::Truncated);
        }
        let version: u8 = data[4];
        if version > CLF_VERSION {
            return Err(ClfError::UnsupportedVersion(version, CLF_VERSION));
        }

        // --- Vendor (4-byte length prefix) ---
        if n < 9 {
            return Err(ClfError::Truncated);
        }
        let vlen: usize = read_u32_at(&data, 5) as usize;
        if n - 9 < vlen {
            return Err(ClfError::Truncated);
        }
        let vendor_bytes = copy_range(&data, 9, 9 + vlen);
        let vendor = match bytes_to_string(vendor_bytes) {
            Some(s) => s,
            None => {
                return Err(ClfError::InvalidVendorUtf8);
            },
        };

        // --- Version 2 and up: target, alignment, kind; version 1: defaults ---
        let mut pos: usize = 9 + vlen;
        let target: String;
        let blob_alignment: u8;
        let kind: ClfKind;
        if version >= 2 {
            if n - pos < 4 {
                return Err(ClfError::Truncated);
            }
            let tlen: usize = read_u32_at(&data, pos) as usize;
            if n - pos - 4 < tlen {
                return Err(ClfError::Truncated);
            }
            let target_bytes = copy_range(&data, pos + 4, pos + 4 + tlen);
            target = match bytes_to_string(target_bytes) {
                Some(s) => s,
                None => {
                    return Err(ClfError::InvalidVendorUtf8);
                },
            };
            if n - pos - 4 - tlen < 2 {
                return Err(ClfError::Truncated);
            }
            blob_alignment = data[pos + 4 + tlen];
            kind = ClfKind::from_byte(data[pos + 4 + tlen + 1]);
            pos = pos + 4 + tlen + 2;
        } else {
            target = String::new();
            blob_alignment = 0;
            kind = ClfKind::Compute;
        }
        proof {
            assert(spec_parse_header(data@) matches Ok(h) && h.version == version
                && vendor@ == decode_utf8(h.vendor) && target@ == decode_utf8(h.target)
                && h.blob_alignment == blob_alignment && h.kind == kind && h.header_end
                == pos as int);
        }

        // --- Expected kind ---
        if let Some(expected) = expected_kind {
            if !(expected == kind) {
                return Err(ClfError::KindMismatch { expected, actual: kind });
            }
        }

        // --- Manifest ---
        if n - pos < 4 {
            return Err(ClfError::Truncated);
        }
        let count_u32: u32 = read_u32_at(&data, pos);
        let count: usize = count_u32 as usize;
        if (((n - pos - 4) / 12) as u64) < count_u32 as u64 {
            proof {
                assert(data@.len() < pos + 4 + 12 * (count_u32 as int)) by (nonlinear_arith)
                    requires
                        (n - pos - 4) / 12 < count_u32 as int,
                        n == data@.len(),
                        pos + 4 <= n,
                ;
            }
            return Err(ClfError::Truncated);
        }
        proof {
            assert(pos + 4 + 12 * (count_u32 as int) <= data@.len()) by (nonlinear_arith)
                requires
                    (n - pos - 4) / 12 >= count_u32 as int,
                    n == data@.len(),
                    pos + 4 <= n,
            ;
        }
        let manifest_start: usize = pos + 4;
        let mut manifest: Vec<ManifestEntry> = Vec::new();
        let mut i: usize = 0;
        let mut p: usize = manifest_start;
        while i < count
            invariant
                i <= count,
                p == manifest_start + 12 * i,
                n == data@.len(),
                manifest_start + 12 * (count as int) <= data@.len(),
                manifest@ == Seq::new(
                    i as nat,
                    |k: int| crate::codec::spec_entry_at(data@, manifest_start + 12 * k),
                ),
            decreases count - i,
        {
            proof {
                assert(p + 12 <= data@.len()) by (nonlinear_arith)
                    requires
                        p == manifest_start + 12 * i,
                        i < count,
                        manifest_start + 12 * (count as int) <= data@.len(),
                ;
            }
            let entry = ManifestEntry {
                op_id: read_u32_at(&data, p),
                offset: read_u32_at(&data, p + 4),
                size: read_u32_at(&data, p + 8),
            };
            manifest.push(entry);
            proof {
                assert(entry == crate::codec::spec_entry_at(data@, manifest_start + 12 * (
                i as int)));
                assert(manifest@ =~= Seq::new(
                    (i + 1) as nat,
                    |k: int| crate::codec::spec_entry_at(data@, manifest_start + 12 * k),
                ));
            }
            i = i + 1;
            p = p + 12;
        }
        let blob_store_offset: usize = p;
        proof {
            assert(spec_parse_manifest(data@, pos as int) == Ok::<
                (Seq<ManifestEntry>, int),
                ClfError,
            >((manifest@, blob_store_offset as int)));
        }

        // --- Signature probe and blob store length ---
        let has_sig: bool = n >= 36 && {
            let m = sig_magic();
            bytes_eq(slice_subrange(data.as_slice(), n - 36, n - 32), m.as_slice())
        };
        proof {
            assert(has_sig == crate::codec::spec_has_sig_trailer(data@));
        }
        let blob_store_len: usize = if has_sig {
            if n - 36 >= blob_store_offset {
                n - 36 - blob_store_offset
            } else {
                0
            }
        } else {
            n - blob_store_offset
        };
        proof {
            assert(blob_store_len as int == spec_store_avail(data@, blob_store_offset as int));
        }

        let header = ClfHeader {
            version,
            vendor,
            target,
            blob_alignment,
            kind,
            header_end: pos as u64,
        };
        let reader = ClfReader {
            header,
            manifest,
            data,
            blob_store_offset,
            blob_store_len,
            signature_verified: false,
        };
        proof {
            lemma_parse_with_to_plain(reader.data@, expected_kind);
        }
        Ok(reader)
    }

    /// Find the manifest entry for an op_id (the last one, when a crafted
    /// container repeats an identifier).
    fn lookup(&self, op_id: u32) -> (r: Option<ManifestEntry>)
        ensures
            r == spec_lookup(self.manifest@, op_id),
    {
        let ghost ms = self.manifest@;
        let mut i: usize = self.manifest.len();
        proof {
            assert(ms.take(ms.len() as int) =~= ms);
        }
        while i > 0
            invariant
                i <= ms.len(),
                ms == self.manifest@,
                spec_lookup(ms, op_id) == spec_lookup(ms.take(i as int), op_id),
            decreases i,
        {
            i = i - 1;
            let e = self.manifest[i];
            proof {
                assert(ms.take(i as int + 1).last() == ms[i as int]);
                assert(ms.take(i as int + 1).drop_last() =~= ms.take(i as int));
            }
            if e.op_id == op_id {
                return Some(e);
            }
        }
        proof {
            assert(ms.take(0).len() == 0);
        }
        None
    }

    /// Return the stored blob for the given op_id if present; `Ok(None)` when
    /// the identifier is not in the manifest. Fails with `BlobOutOfBounds`
    /// when the entry extends past the blob store, rather than reading out of
    /// bounds.
    pub fn get_blob(&self, op_id: u32) -> (r: Result<Option<Vec<u8>>, ClfError>)
        requires
            self.wf(),
        ensures
            match self.spec_get_blob(op_id) {
                Ok(Some(b)) => r matches Ok(Some(v)) && v@ == b,
                Ok(None) => r matches Ok(None),
                Err(e) => r == Err::<Option<Vec<u8>>, ClfError>(e),
            },
    {
        let entry = match self.lookup(op_id) {
            Some(e) => e,
            None => {
                return Ok(None);
            },
        };
        if entry.offset as u64 + entry.size as u64 > self.blob_store_len as u64 {
            return Err(ClfError::BlobOutOfBounds);
        }
        proof {
            lemma_parse_bounds(self.data@, None);
        }
        let _n: usize = self.data.len();
        let start: usize = self.blob_store_offset + entry.offset as usize;
        let end: usize = start + entry.size as usize;
        Ok(Some(copy_range(&self.data, start, end)))
    }

    /// What `verify_signature` returns for a container's bytes: no trailing
    /// block (or a foreign tail) is `Ok(false)`; a block whose hash matches
    /// the data before it is `Ok(true)`; a block whose hash differs is the
    /// `SignatureInvalid` error, a strictly stronger signal than absence.
    pub open spec fn spec_verify_sig(data: Seq<u8>) -> Result<bool, ClfError> {
        if data.len() < 36 {
            Ok(false)
        } else if data.subrange(data.len() - 36, data.len() - 32) != spec_sig_magic() {
            Ok(false)
        } else if data.subrange(data.len() - 32, data.len() as int) == sha256_of(
            data.subrange(0, data.len() - 36),
        ) {
            Ok(true)
        } else {
            Err(ClfError::SignatureInvalid)
        }
    }

    /// Verify the optional trailing signature block (magic + SHA-256 of every
    /// byte before it). Absence of a block is `Ok(false)`; a present block
    /// with the wrong hash is the `SignatureInvalid` error. On success the
    /// `signature_verified` flag is set; nothing else changes.
    pub fn verify_signature(&mut self) -> (r: Result<bool, ClfError>)
        requires
            old(self).wf(),
        ensures
            final(self).wf(),
            final(self).data == old(self).data,
            final(self).header == old(self).header,
            final(self).manifest == old(self).manifest,
            final(self).blob_store_offset == old(self).blob_store_offset,
            final(self).blob_store_len == old(self).blob_store_len,
            r == Self::spec_verify_sig(old(self).data@),
            final(self).signature_verified == (old(self).signature_verified || r == Ok::<
                bool,
                ClfError,
            >(true)),
    {
        let n: usize = self.data.len();
        if n < 36 {
            return Ok(false);
        }
        let magic = sig_magic();
        if !bytes_eq(
            slice_subrange(self.data.as_slice(), n - 36, n - 32),
            magic.as_slice(),
        ) {
            return Ok(false);
        }
        let digest = sha256(slice_subrange(self.data.as_slice(), 0, n - 36));
        let stored = slice_subrange(self.data.as_slice(), n - 32, n);
        if bytes_eq(stored, digest.as_slice()) {
            self.signature_verified = true;
            Ok(true)
        } else {
            Err(ClfError::SignatureInvalid)
        }
    }

    /// Whether `verify_signature` was called and succeeded.
    pub fn signature_verified(&self) -> (r: bool)
        ensures
            r == self.signature_verified,
    {
        self.signature_verified
    }

    /// List the op_ids present in the manifest, in ascending order, each once.
    pub fn op_ids(&self) -> (r: Vec<u32>)
        ensures
            sorted_unique(r@),
            forall|id: u32| r@.contains(id) <==> manifest_has_id(self.manifest@, id),
    {
        let ghost ms = self.manifest@;
        let mut ids: Vec<u32> = Vec::new();
        let mut j: usize = 0;
        while j < self.manifest.len()
            invariant
                j <= ms.len(),
                ms == self.manifest@,
                sorted_unique(ids@),
                forall|id: u32|
                    ids@.contains(id) <==> exists|k: int|
                        0 <= k < j && ms[k].op_id == id,
            decreases ms.len() - j,
        {
            insert_sorted_unique(&mut ids, self.manifest[j].op_id);
            j = j + 1;
            proof {
                assert forall|id: u32| #[trigger]
                    ids@.contains(id) implies exists|k: int|
                    0 <= k < j && ms[k].op_id == id by {
                    if id == ms[j - 1].op_id {
                        assert(ms[j - 1].op_id == id);
                    }
                }
                assert forall|id: u32|
                    exists|k: int| 0 <= k < j && ms[k].op_id == id implies #[trigger]
                    ids@.contains(id) by {}
            }
        }
        ids
    }

    /// Build a code section by concatenating the stored blobs for the given
    /// op_ids, in exactly the given order (no sorting, no deduplication).
    /// A missing op_id aborts with `MissingOpId` under `Fail`, and
    /// contributes nothing under `Skip`; bytes already gathered are discarded
    /// on any failure.
    pub fn build_code_section(&self, op_ids: &[u32], policy: MissingOpIdPolicy) -> (r: Result<
        Vec<u8>,
        ClfError,
    >)
        requires
            self.wf(),
        ensures
            match spec_code_section(*self, op_ids@, policy) {
                Ok(b) => r matches Ok(v) && v@ == b,
                Err(e) => r == Err::<Vec<u8>, ClfError>(e),
            },
    {
        let mut out: Vec<u8> = Vec::new();
        let mut j: usize = 0;
        proof {
            assert(op_ids@.take(0).len() == 0);
        }
        while j < op_ids.len()
            invariant
                self.wf(),
                j <= op_ids@.len(),
                spec_code_section(*self, op_ids@.take(j as int), policy) == Ok::<
                    Seq<u8>,
                    ClfError,
                >(out@),
            decreases op_ids@.len() - j,
        {
            proof {
                assert(op_ids@.take(j as int + 1).drop_last() =~= op_ids@.take(j as int));
                assert(op_ids@.take(j as int + 1).last() == op_ids@[j as int]);
            }
            let id: u32 = op_ids[j];
            match self.get_blob(id) {
                Err(e) => {
                    proof {
                        lemma_code_section_err(*self, op_ids@, policy, j as int + 1);
                    }
                    return Err(e);
                },
                Ok(None) => {
                    if policy == MissingOpIdPolicy::Fail {
                        proof {
                            lemma_code_section_err(*self, op_ids@, policy, j as int + 1);
                        }
                        return Err(ClfError::MissingOpId(id));
                    }
                },
                Ok(Some(blob)) => {
                    append_bytes(&mut out, blob.as_slice());
                },
            }
            j = j + 1;
        }
        proof {
            assert(op_ids@.take(op_ids@.len() as int) =~= op_ids@);
        }
        Ok(out)
    }
}

/// Strictly ascending: sorted with no repeats.
pub open spec fn sorted_unique(s: Seq<u32>) -> bool {
    forall|a: int, b: int| 0 <= a < b < s.len() ==> s[a] < s[b]
}

/// Whether some manifest entry carries the identifier.
pub open spec fn manifest_has_id(ms: Seq<ManifestEntry>, id: u32) -> bool {
    exists|k: int| 0 <= k < ms.len() && ms[k].op_id == id
}

/// What `build_code_section` returns: the blobs for the identifiers in input
/// order, concatenated; the first failure (in input order) wins.
pub open spec fn spec_code_section(
    r: ClfReader,
    ids: Seq<u32>,
    policy: MissingOpIdPolicy,
) -> Result<Seq<u8>, ClfError>
    decreases ids.len(),
{
    if ids.len() == 0 {
        Ok(Seq::empty())
    } else {
        match spec_code_section(r, ids.drop_last(), policy) {
            Err(e) => Err(e),
            Ok(rest) => match r.spec_get_blob(ids.last()) {
                Err(e) => Err(e),
                Ok(Some(b)) => Ok(rest + b),
                Ok(None) => if policy == MissingOpIdPolicy::Fail {
                    Err(ClfError::MissingOpId(ids.last()))
                } else {
                    Ok(rest)
                },
            },
        }
    }
}

/// Once a prefix of the identifier list fails, the whole list fails the same
/// way: later identifiers cannot mask an earlier failure.
proof fn lemma_code_section_err(r: ClfReader, ids: Seq<u32>, policy: MissingOpIdPolicy, k: int)
    requires
        0 <= k <= ids.len(),
        spec_code_section(r, ids.take(k), policy) is Err,
    ensures
        spec_code_section(r, ids, policy) == spec_code_section(r, ids.take(k), policy),
    decreases ids.len() - k,
{
    if k < ids.len() {
        assert(ids.take(k + 1).drop_last() =~= ids.take(k));
        lemma_code_section_err(r, ids, policy, k + 1);
    } else {
        assert(ids.take(k) =~= ids);
    }
}

/// Append a slice's bytes to a vector.
fn append_bytes(out: &mut Vec<u8>, b: &[u8])
    ensures
        final(out)@ == old(out)@ + b@,
{
    let mut k: usize = 0;
    while k < b.len()
        invariant
            k <= b@.len(),
            out@ == old(out)@ + b@.take(k as int),
        decreases b@.len() - k,
    {
        out.push(b[k]);
        k = k + 1;
        proof {
            assert(old(out)@ + b@.take(k as int) =~= (old(out)@ + b@.take(k - 1)).push(
                b@[k - 1],
            ));
        }
    }
    proof {
        assert(b@.take(b@.len() as int) =~= b@);
    }
}

/// Insert a value into a strictly ascending vector, keeping it strictly
/// ascending; present values are not repeated.
fn insert_sorted_unique(v: &mut Vec<u32>, x: u32)
    requires
        sorted_unique(old(v)@),
    ensures
        sorted_unique(final(v)@),
        forall|y: u32| final(v)@.contains(y) <==> (old(v)@.contains(y) || y == x),
{
    let mut i: usize = 0;
    while i < v.len() && v[i] < x
        invariant
            i <= v@.len(),
            v@ == old(v)@,
            forall|k: int| 0 <= k < i ==> v@[k] < x,
        decreases v@.len() - i,
    {
        i = i + 1;
    }
    if i < v.len() && v[i] == x {
        proof {
            assert(old(v)@.contains(x));
        }
        return ;
    }
    let ghost s = v@;
    proof {
        assert(i < s.len() ==> s[i as int] > x);
        s.insert_ensures(i as int, x);
    }
    v.insert(i, x);
    proof {
        let t = v@;
        assert(t == s.insert(i as int, x));
        assert forall|a: int, b: int| 0 <= a < b < t.len() implies t[a] < t[b] by {
            if b < i {
                assert(t[a] == s[a] && t[b] == s[b]);
            } else if a < i && b == i {
                assert(t[a] == s[a] && t[b] == x);
            } else if a < i && b > i {
                assert(t[a] == s[a] && t[b] == s[b - 1]);
                assert(s[b - 1] >= s[i as int] || b - 1 == i);
            } else if a == i {
                assert(t[a] == x && t[b] == s[b - 1]);
                assert(b - 1 >= i);
                assert(s[b - 1] >= s[i as int]);
            } else {
                assert(t[a] == s[a - 1] && t[b] == s[b - 1]);
            }
        }
        assert forall|y: u32| #[trigger] t.contains(y) implies (s.contains(y) || y == x) by {
            let k = choose|k: int| 0 <= k < t.len() && t[k] == y;
            if k < i {
                assert(s[k] == y);
            } else if k > i {
                assert(s[k - 1] == y);
            }
        }
        assert forall|y: u32| s.contains(y) || y == x implies #[trigger] t.contains(y) by {
            if y == x {
                assert(t[i as int] == x);
            } else {
                let k = choose|k: int| 0 <= k < s.len() && s[k] == y;
                if k < i {
                    assert(t[k] == y);
                } else {
                    assert(t[k + 1] == y);
                }
            }
        }
    }
}

} // verus!
