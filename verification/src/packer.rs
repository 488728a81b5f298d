//! CLF packer: build a container from (op_id, blob) pairs.
//!
//! `pack_clf` serializes header, manifest and blob store into one byte vector;
//! `append_signature` appends the optional trailing signature block.

use vstd::bytes::{spec_u32_to_le_bytes, u32_to_le_bytes};
use vstd::prelude::*;
use vstd::utf8::encode_utf8;

use crate::codec::{
    blobs_of, spec_container_bytes, spec_header_bytes, spec_manifest_bytes,
    spec_manifest_entries, spec_pad_len, spec_store_bytes, spec_store_len, spec_stored_size,
    lemma_manifest_bytes_take_succ, lemma_store_bytes_take_succ, lemma_store_len_take_le,
    lemma_store_len_take_succ,
};
use crate::format::{clf_magic, sig_magic, spec_sig_magic, ClfKind, CLF_VERSION};
use crate::hash::{sha256, sha256_of};

verus! {

/// Errors produced by the packer.
#[derive(Debug, Clone, Copy, PartialEq, Eq, Structural)]
pub enum PackError {
    /// Two input entries share an op_id; the field names the identifier of
    /// the second entry of the first such pair, in input order.
    DuplicateOpId(u32),
    /// The vendor or target string exceeds the range of the 4-byte length
    /// prefix.
    VendorTooLong,
}

/// Options for building a container.
#[derive(Debug, Clone)]
pub struct PackOptions {
    /// Vendor identifier (UTF-8); display/audit only.
    pub vendor: String,
    /// Target/architecture tag; only written for version 2 and up.
    pub target: String,
    /// Blob alignment (0 = none): each stored blob is padded with zero bytes
    /// to a multiple of this, the last one included.
    pub blob_alignment: u8,
    /// File kind; only written for version 2 and up.
    pub kind: ClfKind,
    /// Format version to write (default CLF_VERSION).
    pub version: u8,
    /// If true, the caller follows up with `append_signature`.
    pub sign: bool,
}

impl Default for PackOptions {
    fn default() -> (r: Self)
        ensures
            r.vendor@ == Seq::<char>::empty(),
            r.target@ == Seq::<char>::empty(),
            r.blob_alignment == 0,
            r.kind == ClfKind::Compute,
            r.version == CLF_VERSION,
            !r.sign,
    {
        PackOptions {
            vendor: String::new(),
            target: String::new(),
            blob_alignment: 0,
            kind: ClfKind::Compute,
            version: CLF_VERSION,
            sign: false,
        }
    }
}

/// The entries as the spec model sees them: identifiers with blob contents.
pub open spec fn entries_model(s: Seq<(u32, Vec<u8>)>) -> Seq<(u32, Seq<u8>)> {
    s.map_values(|e: (u32, Vec<u8>)| (e.0, e.1@))
}

/// The identifiers of the entries, in input order.
pub open spec fn op_ids_of(s: Seq<(u32, Vec<u8>)>) -> Seq<u32> {
    s.map_values(|e: (u32, Vec<u8>)| e.0)
}

/// Whether the identifier at position `j` repeats an earlier one.
pub open spec fn spec_dup_at(ids: Seq<u32>, j: int) -> bool {
    exists|i: int| 0 <= i < j && ids[i] == ids[j]
}

/// The first repeated identifier from position `j` on, scanning forward.
pub open spec fn spec_first_dup_from(ids: Seq<u32>, j: int) -> Option<u32>
    decreases ids.len() - j,
{
    if j < 0 || j >= ids.len() {
        None
    } else if spec_dup_at(ids, j) {
        Some(ids[j])
    } else {
        spec_first_dup_from(ids, j + 1)
    }
}

/// The identifier of the second entry of the first duplicated pair, if any.
pub open spec fn spec_first_dup(ids: Seq<u32>) -> Option<u32> {
    spec_first_dup_from(ids, 0)
}

/// No identifier occurs twice.
pub open spec fn unique_ids(ids: Seq<u32>) -> bool {
    forall|i: int, j: int| 0 <= i < j < ids.len() ==> ids[i] != ids[j]
}

proof fn lemma_first_dup_skip(ids: Seq<u32>, j: int)
    requires
        0 <= j <= ids.len(),
        forall|j2: int| 0 <= j2 < j ==> !spec_dup_at(ids, j2),
    ensures
        spec_first_dup(ids) == spec_first_dup_from(ids, j),
    decreases j,
{
    if j > 0 {
        lemma_first_dup_skip(ids, j - 1);
    }
}

/// Duplicate detection finds a duplicate exactly when one exists.
pub proof fn lemma_first_dup_none_iff_unique(ids: Seq<u32>)
    ensures
        spec_first_dup(ids) is None <==> unique_ids(ids),
{
    if unique_ids(ids) {
        lemma_first_dup_skip(ids, ids.len() as int);
    } else {
        let (i0, j0) = choose|i: int, j: int|
            0 <= i < j < ids.len() && ids[i] == ids[j];
        assert(spec_dup_at(ids, j0));
        lemma_first_dup_from_finds(ids, 0, j0);
    }
}

proof fn lemma_first_dup_from_finds(ids: Seq<u32>, j: int, jd: int)
    requires
        0 <= j <= jd < ids.len(),
        spec_dup_at(ids, jd),
    ensures
        spec_first_dup_from(ids, j) is Some,
    decreases jd - j,
{
    if j < jd && !spec_dup_at(ids, j) {
        lemma_first_dup_from_finds(ids, j + 1, jd);
    }
}

fn push_u32_le(out: &mut Vec<u8>, x: u32)
    ensures
        final(out)@ == old(out)@ + spec_u32_to_le_bytes(x),
{
    let mut b = u32_to_le_bytes(x);
    out.append(&mut b);
}

fn push_bytes(out: &mut Vec<u8>, b: &[u8])
    ensures
        final(out)@ == old(out)@ + b@,
{
    let mut k: usize = 0;
    while k < b.len()
        invariant
            k <= b@.len(),
            out@ == old(out)@ + b@.take(k as int),
        decreases b@.len() - k,
    {
        out.push(b[k]);
        k = k + 1;
        proof {
            assert(old(out)@ + b@.take(k as int) =~= (old(out)@ + b@.take(k - 1)).push(
                b@[k - 1],
            ));
        }
    }
    proof {
        assert(b@.take(b@.len() as int) =~= b@);
    }
}

fn push_zeros(out: &mut Vec<u8>, n: usize)
    ensures
        final(out)@ == old(out)@ + Seq::new(n as nat, |i: int| 0u8),
{
    let mut k: usize = 0;
    while k < n
        invariant
            k <= n,
            out@ == old(out)@ + Seq::new(k as nat, |i: int| 0u8),
        decreases n - k,
    {
        out.push(0u8);
        k = k + 1;
        proof {
            assert(old(out)@ + Seq::new(k as nat, |i: int| 0u8) =~= (old(out)@ + Seq::new(
                (k - 1) as nat,
                |i: int| 0u8,
            )).push(0u8));
        }
    }
}

/// Build a container from (op_id, blob) pairs. Entries must have unique
/// op_ids. Returns the serialized header + manifest + blob store; the caller
/// may then call `append_signature` when `options.sign` is set.
///
/// Fails with `VendorTooLong` when the vendor (or, for version 2 and up, the
/// target) does not fit its 4-byte length prefix, and with `DuplicateOpId`
/// when two entries share an identifier; both are detected before any byte is
/// produced. On success the output is exactly `spec_container_bytes`.
pub fn pack_clf(entries: &[(u32, Vec<u8>)], options: &PackOptions) -> (r: Result<
    Vec<u8>,
    PackError,
>)
    requires
        entries@.len() <= u32::MAX,
        spec_store_len(blobs_of(entries_model(entries@)), options.blob_alignment)
            <= u32::MAX,
    ensures
        ({
            let m = entries_model(entries@);
            let vb = encode_utf8(options.vendor@);
            let tb = encode_utf8(options.target@);
            let too_long = vb.len() > u32::MAX || (options.version >= 2 && tb.len()
                > u32::MAX);
            match r {
                Err(PackError::VendorTooLong) => too_long,
                Err(PackError::DuplicateOpId(id)) => !too_long && spec_first_dup(
                    op_ids_of(entries@),
                ) == Some(id),
                Ok(bytes) => !too_long && spec_first_dup(op_ids_of(entries@)) is None
                    && bytes@ == spec_container_bytes(
                    m,
                    options.version,
                    vb,
                    tb,
                    options.blob_alignment,
                    options.kind,
                ),
            }
        }),
{
    let ghost m = entries_model(entries@);
    let ghost ids = op_ids_of(entries@);
    let ghost align = options.blob_alignment;

    let vendor_bytes = options.vendor.as_str().as_bytes_vec();
    if vendor_bytes.len() > u32::MAX as usize {
        return Err(PackError::VendorTooLong);
    }
    let target_bytes = options.target.as_str().as_bytes_vec();
    if options.version >= 2 && target_bytes.len() > u32::MAX as usize {
        return Err(PackError::VendorTooLong);
    }

    // Reject duplicate op_ids before any byte is produced.
    let mut j: usize = 0;
    while j < entries.len()
        invariant
            j <= entries@.len(),
            ids == op_ids_of(entries@),
            forall|j2: int| 0 <= j2 < j ==> !spec_dup_at(ids, j2),
            encode_utf8(options.vendor@).len() <= u32::MAX,
            options.version >= 2 ==> encode_utf8(options.target@).len() <= u32::MAX,
        decreases entries@.len() - j,
    {
        let mut i: usize = 0;
        while i < j
            invariant
                i <= j < entries@.len(),
                ids == op_ids_of(entries@),
                forall|j2: int| 0 <= j2 < j ==> !spec_dup_at(ids, j2),
                forall|i2: int| 0 <= i2 < i ==> ids[i2] != ids[j as int],
                encode_utf8(options.vendor@).len() <= u32::MAX,
                options.version >= 2 ==> encode_utf8(options.target@).len() <= u32::MAX,
            decreases j - i,
        {
            if entries[i].0 == entries[j].0 {
                proof {
                    assert(ids[i as int] == entries@[i as int].0);
                    assert(ids[j as int] == entries@[j as int].0);
                    assert(0 <= (i as int) && (i as int) < (j as int) && ids[i as int] == ids[
                        j as int
                    ]);
                    assert(spec_dup_at(ids, j as int));
                    lemma_first_dup_skip(ids, j as int);
                }
                return Err(PackError::DuplicateOpId(entries[j].0));
            }
            i = i + 1;
        }
        j = j + 1;
    }
    proof {
        lemma_first_dup_skip(ids, ids.len() as int);
    }

    let mut out: Vec<u8> = Vec::new();

    // --- Header ---
    let mut magic = clf_magic();
    out.append(&mut magic);
    out.push(options.version);
    push_u32_le(&mut out, vendor_bytes.len() as u32);
    push_bytes(&mut out, vendor_bytes.as_slice());
    if options.version >= 2 {
        push_u32_le(&mut out, target_bytes.len() as u32);
        push_bytes(&mut out, target_bytes.as_slice());
        out.push(options.blob_alignment);
        out.push(options.kind.to_byte());
    }
    proof {
        assert(out@ =~= spec_header_bytes(
            options.version,
            encode_utf8(options.vendor@),
            encode_utf8(options.target@),
            align,
            options.kind,
        ));
    }
    let ghost header = out@;

    // --- Manifest: count, then one 12-byte entry per input pair ---
    push_u32_le(&mut out, entries.len() as u32);
    let ghost pre_manifest = out@;
    let ghost manifest = spec_manifest_entries(m, align);

    let mut offset: u32 = 0;
    let mut j: usize = 0;
    while j < entries.len()
        invariant
            j <= entries@.len(),
            m == entries_model(entries@),
            align == options.blob_alignment,
            manifest == spec_manifest_entries(m, align),
            spec_store_len(blobs_of(m), align) <= u32::MAX,
            offset == spec_store_len(blobs_of(m).take(j as int), align),
            out@ == pre_manifest + spec_manifest_bytes(manifest.take(j as int)),
        decreases entries@.len() - j,
    {
        let blob_len: usize = entries[j].1.len();
        let a: u8 = options.blob_alignment;
        let pad: usize = if a == 0 {
            0
        } else {
            (a as usize - blob_len % (a as usize)) % (a as usize)
        };
        proof {
            assert(blobs_of(m)[j as int] == entries@[j as int].1@);
            assert(pad == spec_pad_len(entries@[j as int].1@.len(), align));
            lemma_store_len_take_succ(blobs_of(m), align, j as int);
            lemma_store_len_take_le(blobs_of(m), align, j as int + 1);
        }
        let size: u32 = (blob_len + pad) as u32;
        push_u32_le(&mut out, entries[j].0);
        push_u32_le(&mut out, offset);
        push_u32_le(&mut out, size);
        proof {
            lemma_manifest_bytes_take_succ(manifest, j as int);
            assert(out@ =~= pre_manifest + spec_manifest_bytes(
                manifest.take(j as int + 1),
            ));
        }
        offset = offset + size;
        j = j + 1;
    }
    proof {
        assert(manifest.take(m.len() as int) =~= manifest);
    }
    let ghost pre_store = out@;

    // --- Blob store: each blob, padded to the alignment ---
    let mut j: usize = 0;
    while j < entries.len()
        invariant
            j <= entries@.len(),
            m == entries_model(entries@),
            align == options.blob_alignment,
            out@ == pre_store + spec_store_bytes(blobs_of(m).take(j as int), align),
        decreases entries@.len() - j,
    {
        let blob_len: usize = entries[j].1.len();
        let a: u8 = options.blob_alignment;
        let pad: usize = if a == 0 {
            0
        } else {
            (a as usize - blob_len % (a as usize)) % (a as usize)
        };
        push_bytes(&mut out, entries[j].1.as_slice());
        push_zeros(&mut out, pad);
        proof {
            assert(blobs_of(m)[j as int] == entries@[j as int].1@);
            assert(pad == spec_pad_len(entries@[j as int].1@.len(), align));
            lemma_store_bytes_take_succ(blobs_of(m), align, j as int);
            assert(out@ =~= pre_store + spec_store_bytes(
                blobs_of(m).take(j as int + 1),
                align,
            ));
        }
        j = j + 1;
    }
    proof {
        assert(blobs_of(m).take(m.len() as int) =~= blobs_of(m));
        assert(out@ =~= spec_container_bytes(
            m,
            options.version,
            encode_utf8(options.vendor@),
            encode_utf8(options.target@),
            align,
            options.kind,
        ));
    }
    Ok(out)
}

/// Append the signature block (magic + SHA-256 of everything before it) to a
/// packed container. Call after `pack_clf` when `options.sign` is set.
pub fn append_signature(data: &mut Vec<u8>)
    ensures
        final(data)@ == old(data)@ + spec_sig_magic() + sha256_of(old(data)@),
        final(data)@.len() == old(data)@.len() + 36,
{
    let mut digest = sha256(data.as_slice());
    let mut magic = sig_magic();
    data.append(&mut magic);
    data.append(&mut digest);
    proof {
        assert(data@ =~= old(data)@ + spec_sig_magic() + sha256_of(old(data)@));
    }
}

} // verus!
