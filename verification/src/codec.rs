//! Byte-level model of the CLF container.
//!
//! The packer's output and the reader's input are both described by the spec
//! functions here: `spec_container_bytes` says exactly which bytes a packed
//! container holds, and `spec_parse` says how a byte sequence is decoded.
//! Round-trip lemmas connecting the two live in `laws`.

use vstd::prelude::*;
use vstd::bytes::*;
use crate::format::{
    spec_clf_magic, spec_kind_byte, spec_kind_from_byte, spec_sig_magic, ClfKind, ManifestEntry,
    CLF_VERSION,
};

verus! {

// ---------------------------------------------------------------------------
// Blob store: padding, stored sizes, offsets
// ---------------------------------------------------------------------------

/// Number of zero bytes appended after a blob of length `len` so that the next
/// blob starts at a multiple of `align` (0 means no padding). Padding applies
/// uniformly, the last blob included: a stored blob's recorded size is always
/// a multiple of a nonzero alignment.
pub open spec fn spec_pad_len(len: nat, align: u8) -> nat {
    if align == 0 {
        0
    } else {
        (((align as int) - (len as int) % (align as int)) % (align as int)) as nat
    }
}

/// Stored length of one blob: its own length plus alignment padding.
pub open spec fn spec_stored_size(len: nat, align: u8) -> nat {
    len + spec_pad_len(len, align)
}

/// A blob as stored: its bytes followed by zero padding.
pub open spec fn spec_padded_blob(b: Seq<u8>, align: u8) -> Seq<u8> {
    b + Seq::new(spec_pad_len(b.len(), align), |i: int| 0u8)
}

/// Total length of the blob store holding the given blobs.
pub open spec fn spec_store_len(blobs: Seq<Seq<u8>>, align: u8) -> nat
    decreases blobs.len(),
{
    if blobs.len() == 0 {
        0
    } else {
        spec_store_len(blobs.drop_last(), align) + spec_stored_size(blobs.last().len(), align)
    }
}

/// The blob store: each blob padded, concatenated in input order.
pub open spec fn spec_store_bytes(blobs: Seq<Seq<u8>>, align: u8) -> Seq<u8>
    decreases blobs.len(),
{
    if blobs.len() == 0 {
        Seq::empty()
    } else {
        spec_store_bytes(blobs.drop_last(), align) + spec_padded_blob(blobs.last(), align)
    }
}

pub proof fn lemma_padded_blob_len(b: Seq<u8>, align: u8)
    ensures
        spec_padded_blob(b, align).len() == spec_stored_size(b.len(), align),
{
}

pub proof fn lemma_store_bytes_len(blobs: Seq<Seq<u8>>, align: u8)
    ensures
        spec_store_bytes(blobs, align).len() == spec_store_len(blobs, align),
    decreases blobs.len(),
{
    if blobs.len() > 0 {
        lemma_store_bytes_len(blobs.drop_last(), align);
        lemma_padded_blob_len(blobs.last(), align);
    }
}

/// Extending the prefix by one blob grows the store by that blob's stored size.
pub proof fn lemma_store_len_take_succ(blobs: Seq<Seq<u8>>, align: u8, i: int)
    requires
        0 <= i < blobs.len(),
    ensures
        spec_store_len(blobs.take(i + 1), align) == spec_store_len(blobs.take(i), align)
            + spec_stored_size(blobs[i].len(), align),
{
    assert(blobs.take(i + 1).drop_last() =~= blobs.take(i));
    assert(blobs.take(i + 1).last() == blobs[i]);
}

pub proof fn lemma_store_bytes_take_succ(blobs: Seq<Seq<u8>>, align: u8, i: int)
    requires
        0 <= i < blobs.len(),
    ensures
        spec_store_bytes(blobs.take(i + 1), align) == spec_store_bytes(blobs.take(i), align)
            + spec_padded_blob(blobs[i], align),
{
    assert(blobs.take(i + 1).drop_last() =~= blobs.take(i));
    assert(blobs.take(i + 1).last() == blobs[i]);
}

/// Prefix store lengths never exceed the whole store's length.
pub proof fn lemma_store_len_take_le(blobs: Seq<Seq<u8>>, align: u8, i: int)
    requires
        0 <= i <= blobs.len(),
    ensures
        spec_store_len(blobs.take(i), align) <= spec_store_len(blobs, align),
    decreases blobs.len() - i,
{
    if i == blobs.len() {
        assert(blobs.take(i) =~= blobs);
    } else {
        lemma_store_len_take_succ(blobs, align, i);
        lemma_store_len_take_le(blobs, align, i + 1);
    }
}

/// Where blob `i` stands in the store: the bytes from its offset for its
/// stored size are exactly the padded blob.
pub proof fn lemma_store_bytes_at(blobs: Seq<Seq<u8>>, align: u8, i: int)
    requires
        0 <= i < blobs.len(),
    ensures
        ({
            let off = spec_store_len(blobs.take(i), align) as int;
            let sz = spec_stored_size(blobs[i].len(), align) as int;
            &&& off + sz <= spec_store_bytes(blobs, align).len()
            &&& spec_store_bytes(blobs, align).subrange(off, off + sz) == spec_padded_blob(
                blobs[i],
                align,
            )
        }),
    decreases blobs.len(),
{
    lemma_store_bytes_len(blobs, align);
    lemma_store_len_take_succ(blobs, align, i);
    lemma_store_len_take_le(blobs, align, i + 1);
    let off = spec_store_len(blobs.take(i), align) as int;
    let sz = spec_stored_size(blobs[i].len(), align) as int;
    lemma_padded_blob_len(blobs[i], align);
    if i == blobs.len() - 1 {
        assert(blobs.take(i) =~= blobs.drop_last());
        lemma_store_bytes_len(blobs.drop_last(), align);
        assert(spec_store_bytes(blobs, align).subrange(off, off + sz) =~= spec_padded_blob(
            blobs[i],
            align,
        ));
    } else {
        lemma_store_bytes_at(blobs.drop_last(), align, i);
        assert(blobs.drop_last().take(i) =~= blobs.take(i));
        lemma_store_bytes_len(blobs.drop_last(), align);
        assert(spec_store_bytes(blobs, align).subrange(off, off + sz) =~= spec_store_bytes(
            blobs.drop_last(),
            align,
        ).subrange(off, off + sz));
    }
}

// ---------------------------------------------------------------------------
// Manifest and header encoding
// ---------------------------------------------------------------------------

/// The blobs of an entry list, in order.
pub open spec fn blobs_of(entries: Seq<(u32, Seq<u8>)>) -> Seq<Seq<u8>> {
    entries.map_values(|e: (u32, Seq<u8>)| e.1)
}

/// The manifest entry the packer records for input entry `i`: its offset is
/// the running total of prior stored blob lengths, its size the stored
/// (padding included) length of its own blob.
pub open spec fn spec_manifest_entry(entries: Seq<(u32, Seq<u8>)>, align: u8, i: int) -> ManifestEntry {
    ManifestEntry {
        op_id: entries[i].0,
        offset: spec_store_len(blobs_of(entries).take(i), align) as u32,
        size: spec_stored_size(entries[i].1.len(), align) as u32,
    }
}

/// The whole manifest the packer records.
pub open spec fn spec_manifest_entries(entries: Seq<(u32, Seq<u8>)>, align: u8) -> Seq<ManifestEntry> {
    Seq::new(entries.len(), |i: int| spec_manifest_entry(entries, align, i))
}

/// One manifest entry on disk: op_id, offset, size, each 4 bytes little-endian.
pub open spec fn spec_entry_bytes(e: ManifestEntry) -> Seq<u8> {
    spec_u32_to_le_bytes(e.op_id) + spec_u32_to_le_bytes(e.offset) + spec_u32_to_le_bytes(e.size)
}

/// The manifest entries on disk, back to back.
pub open spec fn spec_manifest_bytes(ms: Seq<ManifestEntry>) -> Seq<u8>
    decreases ms.len(),
{
    if ms.len() == 0 {
        Seq::empty()
    } else {
        spec_manifest_bytes(ms.drop_last()) + spec_entry_bytes(ms.last())
    }
}

pub proof fn lemma_manifest_bytes_len(ms: Seq<ManifestEntry>)
    ensures
        spec_manifest_bytes(ms).len() == 12 * ms.len(),
    decreases ms.len(),
{
    if ms.len() > 0 {
        lemma_manifest_bytes_len(ms.drop_last());
        vstd::bytes::lemma_auto_spec_u32_to_from_le_bytes();
    }
}

pub proof fn lemma_manifest_bytes_take_succ(ms: Seq<ManifestEntry>, i: int)
    requires
        0 <= i < ms.len(),
    ensures
        spec_manifest_bytes(ms.take(i + 1)) == spec_manifest_bytes(ms.take(i)) + spec_entry_bytes(
            ms[i],
        ),
{
    assert(ms.take(i + 1).drop_last() =~= ms.take(i));
    assert(ms.take(i + 1).last() == ms[i]);
}

/// The header on disk: magic, version, length-prefixed vendor, and for
/// version 2 and up a length-prefixed target, the alignment byte and the kind
/// byte. A version-1 header ends after the vendor.
pub open spec fn spec_header_bytes(
    version: u8,
    vendor: Seq<u8>,
    target: Seq<u8>,
    align: u8,
    kind: ClfKind,
) -> Seq<u8> {
    spec_clf_magic() + seq![version] + spec_u32_to_le_bytes(vendor.len() as u32) + vendor + (
    if version >= 2 {
        spec_u32_to_le_bytes(target.len() as u32) + target + seq![align, spec_kind_byte(kind)]
    } else {
        Seq::<u8>::empty()
    })
}

/// A complete unsigned container: header, manifest count, manifest entries,
/// blob store.
pub open spec fn spec_container_bytes(
    entries: Seq<(u32, Seq<u8>)>,
    version: u8,
    vendor: Seq<u8>,
    target: Seq<u8>,
    align: u8,
    kind: ClfKind,
) -> Seq<u8> {
    spec_header_bytes(version, vendor, target, align, kind) + spec_u32_to_le_bytes(
        entries.len() as u32,
    ) + spec_manifest_bytes(spec_manifest_entries(entries, align)) + spec_store_bytes(
        blobs_of(entries),
        align,
    )
}

// ---------------------------------------------------------------------------
// Parsing
// ---------------------------------------------------------------------------

/// What a container's header decodes to, at the byte level, together with the
/// position where the manifest begins.
pub struct HeaderModel {
    pub version: u8,
    pub vendor: Seq<u8>,
    pub target: Seq<u8>,
    pub blob_alignment: u8,
    pub kind: ClfKind,
    pub header_end: int,
}

/// What a whole container decodes to.
pub struct ParsedClf {
    pub header: HeaderModel,
    pub manifest: Seq<ManifestEntry>,
    pub blob_store_offset: int,
    pub blob_store_len: int,
}

/// Errors the reader reports.
#[derive(Debug, Clone, Copy, PartialEq, Eq, Structural)]
pub enum ClfError {
    /// The input does not start with the container magic.
    InvalidMagic,
    /// The version byte exceeds the highest supported version; fields are the
    /// version found and the highest supported one.
    UnsupportedVersion(u8, u8),
    /// The vendor or target string is not valid UTF-8.
    InvalidVendorUtf8,
    /// The input ends before the structure it announces (a short read).
    Truncated,
    /// A signature block is present but its hash does not match the data.
    SignatureInvalid,
    /// An op_id required under the Fail policy is not in the manifest.
    MissingOpId(u32),
    /// The header kind differs from the kind the caller expected.
    KindMismatch { expected: ClfKind, actual: ClfKind },
    /// A manifest entry extends past the blob store (data corruption).
    BlobOutOfBounds,
}

/// Decode the header. Checks, in order: magic, version, vendor (UTF-8), and
/// for version 2 and up target (UTF-8), alignment byte, kind byte. A
/// version-1 header yields the documented defaults: empty target, alignment
/// 0, kind Compute.
pub open spec fn spec_parse_header(data: Seq<u8>) -> Result<HeaderModel, ClfError> {
    if data.len() < 4 {
        Err(ClfError::Truncated)
    } else if data.subrange(0, 4) != spec_clf_magic() {
        Err(ClfError::InvalidMagic)
    } else if data.len() < 5 {
        Err(ClfError::Truncated)
    } else if data[4] > CLF_VERSION {
        Err(ClfError::UnsupportedVersion(data[4], CLF_VERSION))
    } else if data.len() < 9 {
        Err(ClfError::Truncated)
    } else {
        let version = data[4];
        let vlen = spec_u32_from_le_bytes(data.subrange(5, 9)) as int;
        if data.len() < 9 + vlen {
            Err(ClfError::Truncated)
        } else {
            let vendor = data.subrange(9, 9 + vlen);
            if !vstd::utf8::valid_utf8(vendor) {
                Err(ClfError::InvalidVendorUtf8)
            } else if version < 2 {
                Ok(
                    HeaderModel {
                        version,
                        vendor,
                        target: Seq::empty(),
                        blob_alignment: 0,
                        kind: ClfKind::Compute,
                        header_end: 9 + vlen,
                    },
                )
            } else {
                let p = 9 + vlen;
                if data.len() < p + 4 {
                    Err(ClfError::Truncated)
                } else {
                    let tlen = spec_u32_from_le_bytes(data.subrange(p, p + 4)) as int;
                    if data.len() < p + 4 + tlen {
                        Err(ClfError::Truncated)
                    } else {
                        let target = data.subrange(p + 4, p + 4 + tlen);
                        if !vstd::utf8::valid_utf8(target) {
                            Err(ClfError::InvalidVendorUtf8)
                        } else if data.len() < p + 4 + tlen + 2 {
                            Err(ClfError::Truncated)
                        } else {
                            Ok(
                                HeaderModel {
                                    version,
                                    vendor,
                                    target,
                                    blob_alignment: data[p + 4 + tlen],
                                    kind: spec_kind_from_byte(data[p + 4 + tlen + 1]),
                                    header_end: p + 4 + tlen + 2,
                                },
                            )
                        }
                    }
                }
            }
        }
    }
}

/// One manifest entry decoded at position `p`.
pub open spec fn spec_entry_at(data: Seq<u8>, p: int) -> ManifestEntry {
    ManifestEntry {
        op_id: spec_u32_from_le_bytes(data.subrange(p, p + 4)),
        offset: spec_u32_from_le_bytes(data.subrange(p + 4, p + 8)),
        size: spec_u32_from_le_bytes(data.subrange(p + 8, p + 12)),
    }
}

/// Decode the manifest starting at `pos`: a 4-byte count, then that many
/// 12-byte entries. Yields the entries and the blob store's start position.
pub open spec fn spec_parse_manifest(data: Seq<u8>, pos: int) -> Result<
    (Seq<ManifestEntry>, int),
    ClfError,
> {
    if data.len() < pos + 4 {
        Err(ClfError::Truncated)
    } else {
        let count = spec_u32_from_le_bytes(data.subrange(pos, pos + 4)) as int;
        if data.len() < pos + 4 + 12 * count {
            Err(ClfError::Truncated)
        } else {
            Ok(
                (
                    Seq::new(count as nat, |i: int| spec_entry_at(data, pos + 4 + 12 * i)),
                    pos + 4 + 12 * count,
                ),
            )
        }
    }
}

/// Whether the input's last 36 bytes begin with the signature magic: the
/// probe a reader makes to decide if a trailing signature block is present.
pub open spec fn spec_has_sig_trailer(data: Seq<u8>) -> bool {
    data.len() >= 36 && data.subrange(data.len() - 36, data.len() - 32) == spec_sig_magic()
}

/// The blob store's logical length: the bytes between the store's start and
/// the end of the input, less the signature block when one is present. Never
/// negative (the store start never lies past the input's end once the
/// manifest parsed, and a signature block overlapping it leaves length 0).
pub open spec fn spec_store_avail(data: Seq<u8>, bso: int) -> int {
    if spec_has_sig_trailer(data) {
        if data.len() - 36 >= bso {
            data.len() - 36 - bso
        } else {
            0
        }
    } else {
        data.len() - bso
    }
}

/// Decode a whole container. `expected` is checked against the header's kind
/// right after the header, before the manifest is read, matching the order a
/// reader validates in.
pub open spec fn spec_parse_with(data: Seq<u8>, expected: Option<ClfKind>) -> Result<
    ParsedClf,
    ClfError,
> {
    match spec_parse_header(data) {
        Err(e) => Err(e),
        Ok(h) => {
            if expected matches Some(k) && k != h.kind {
                Err(ClfError::KindMismatch { expected: expected->0, actual: h.kind })
            } else {
                match spec_parse_manifest(data, h.header_end) {
                    Err(e) => Err(e),
                    Ok((ms, bso)) => Ok(
                        ParsedClf {
                            header: h,
                            manifest: ms,
                            blob_store_offset: bso,
                            blob_store_len: spec_store_avail(data, bso),
                        },
                    ),
                }
            }
        },
    }
}

/// Decode a whole container with no expected kind.
pub open spec fn spec_parse(data: Seq<u8>) -> Result<ParsedClf, ClfError> {
    spec_parse_with(data, None)
}

/// A successfully decoded container's blob store lies within the input.
pub proof fn lemma_parse_bounds(data: Seq<u8>, expected: Option<ClfKind>)
    requires
        spec_parse_with(data, expected) is Ok,
    ensures
        ({
            let p = spec_parse_with(data, expected)->Ok_0;
            &&& 0 <= p.blob_store_offset
            &&& 0 <= p.blob_store_len
            &&& p.blob_store_offset + p.blob_store_len <= data.len()
            &&& p.header.header_end <= p.blob_store_offset
            &&& 4 <= p.header.header_end
        }),
{
}

/// The expected kind only filters: a container that opens under some expected
/// kind decodes the same with none.
pub proof fn lemma_parse_with_to_plain(data: Seq<u8>, expected: Option<ClfKind>)
    requires
        spec_parse_with(data, expected) is Ok,
    ensures
        spec_parse(data) == spec_parse_with(data, expected),
{
}

// ---------------------------------------------------------------------------
// The packer's bytes decode to what the packer meant
// ---------------------------------------------------------------------------

/// Where manifest entry `i` stands among the manifest bytes.
pub proof fn lemma_manifest_bytes_at(ms: Seq<ManifestEntry>, i: int)
    requires
        0 <= i < ms.len(),
    ensures
        spec_manifest_bytes(ms).subrange(12 * i, 12 * i + 12) == spec_entry_bytes(ms[i]),
    decreases ms.len(),
{
    lemma_manifest_bytes_len(ms);
    lemma_manifest_bytes_len(ms.drop_last());
    vstd::bytes::lemma_auto_spec_u32_to_from_le_bytes();
    if i == ms.len() - 1 {
        assert(spec_manifest_bytes(ms).subrange(12 * i, 12 * i + 12) =~= spec_entry_bytes(
            ms[i],
        ));
    } else {
        lemma_manifest_bytes_at(ms.drop_last(), i);
        assert(spec_manifest_bytes(ms).subrange(12 * i, 12 * i + 12) =~= spec_manifest_bytes(
            ms.drop_last(),
        ).subrange(12 * i, 12 * i + 12));
    }
}

/// The header's length on disk.
pub open spec fn spec_header_len(version: u8, vendor: Seq<u8>, target: Seq<u8>) -> int {
    9 + vendor.len() as int + if version >= 2 {
        6 + target.len() as int
    } else {
        0
    }
}

pub proof fn lemma_header_bytes_len(
    version: u8,
    vendor: Seq<u8>,
    target: Seq<u8>,
    align: u8,
    kind: ClfKind,
)
    ensures
        spec_header_bytes(version, vendor, target, align, kind).len() == spec_header_len(
            version,
            vendor,
            target,
        ),
{
    vstd::bytes::lemma_auto_spec_u32_to_from_le_bytes();
}

/// What the header of a packed container decodes to, on any input that starts
/// with that container's bytes: the fields the packer was given, with the
/// version-1 defaults where version 1 stores no field.
pub proof fn lemma_parse_header_of_container(
    entries: Seq<(u32, Seq<u8>)>,
    version: u8,
    vendor: Seq<u8>,
    target: Seq<u8>,
    align: u8,
    kind: ClfKind,
    data: Seq<u8>,
)
    requires
        version <= CLF_VERSION,
        vendor.len() <= u32::MAX,
        version >= 2 ==> target.len() <= u32::MAX,
        vstd::utf8::valid_utf8(vendor),
        version >= 2 ==> vstd::utf8::valid_utf8(target),
        data.len() >= spec_container_bytes(entries, version, vendor, target, align, kind).len(),
        data.subrange(
            0,
            spec_container_bytes(entries, version, vendor, target, align, kind).len() as int,
        ) == spec_container_bytes(entries, version, vendor, target, align, kind),
    ensures
        spec_parse_header(data) == Ok::<HeaderModel, ClfError>(
            HeaderModel {
                version,
                vendor,
                target: if version >= 2 {
                    target
                } else {
                    Seq::empty()
                },
                blob_alignment: if version >= 2 {
                    align
                } else {
                    0
                },
                kind: if version >= 2 {
                    kind
                } else {
                    ClfKind::Compute
                },
                header_end: spec_header_len(version, vendor, target),
            },
        ),
{
    vstd::bytes::lemma_auto_spec_u32_to_from_le_bytes();
    let hb = spec_header_bytes(version, vendor, target, align, kind);
    let cb = spec_container_bytes(entries, version, vendor, target, align, kind);
    lemma_header_bytes_len(version, vendor, target, align, kind);
    let hlen = spec_header_len(version, vendor, target);
    assert(cb.len() >= hlen);
    assert forall|k: int| 0 <= k < hlen implies data[k] == hb[k] by {
        assert(cb[k] == hb[k]);
        assert(data.subrange(0, cb.len() as int)[k] == data[k]);
    }
    assert(data.subrange(0, 4) =~= spec_clf_magic());
    assert(data[4] == version);
    assert(data.subrange(5, 9) =~= spec_u32_to_le_bytes(vendor.len() as u32));
    let vlen = spec_u32_from_le_bytes(data.subrange(5, 9)) as int;
    assert(vlen == vendor.len());
    assert(data.subrange(9, 9 + vlen) =~= vendor);
    if version >= 2 {
        let p = 9 + vlen;
        assert(data.subrange(p, p + 4) =~= spec_u32_to_le_bytes(target.len() as u32));
        let tlen = spec_u32_from_le_bytes(data.subrange(p, p + 4)) as int;
        assert(tlen == target.len());
        assert(data.subrange(p + 4, p + 4 + tlen) =~= target);
        assert(data[p + 4 + tlen] == align);
        assert(data[p + 4 + tlen + 1] == spec_kind_byte(kind));
        assert(spec_kind_from_byte(spec_kind_byte(kind)) == kind);
    }
}

/// What the manifest of a packed container decodes to, on any input that
/// starts with that container's bytes: one entry per input pair, with the
/// packer's running offsets and stored sizes.
pub proof fn lemma_parse_manifest_of_container(
    entries: Seq<(u32, Seq<u8>)>,
    version: u8,
    vendor: Seq<u8>,
    target: Seq<u8>,
    align: u8,
    kind: ClfKind,
    data: Seq<u8>,
)
    requires
        entries.len() <= u32::MAX,
        spec_store_len(blobs_of(entries), align) <= u32::MAX,
        data.len() >= spec_container_bytes(entries, version, vendor, target, align, kind).len(),
        data.subrange(
            0,
            spec_container_bytes(entries, version, vendor, target, align, kind).len() as int,
        ) == spec_container_bytes(entries, version, vendor, target, align, kind),
    ensures
        spec_parse_manifest(data, spec_header_len(version, vendor, target)) == Ok::<
            (Seq<ManifestEntry>, int),
            ClfError,
        >(
            (
                spec_manifest_entries(entries, align),
                spec_header_len(version, vendor, target) + 4 + 12 * entries.len(),
            ),
        ),
{
    vstd::bytes::lemma_auto_spec_u32_to_from_le_bytes();
    let cb = spec_container_bytes(entries, version, vendor, target, align, kind);
    let hb = spec_header_bytes(version, vendor, target, align, kind);
    let ms = spec_manifest_entries(entries, align);
    let mb = spec_manifest_bytes(ms);
    lemma_header_bytes_len(version, vendor, target, align, kind);
    lemma_manifest_bytes_len(ms);
    let hlen = spec_header_len(version, vendor, target);
    let pos = hlen;
    assert(cb.len() == hlen + 4 + mb.len() + spec_store_bytes(blobs_of(entries), align).len());
    assert forall|k: int| 0 <= k < cb.len() implies data[k] == cb[k] by {
        assert(data.subrange(0, cb.len() as int)[k] == data[k]);
    }
    assert(data.subrange(pos, pos + 4) =~= spec_u32_to_le_bytes(entries.len() as u32));
    let count = spec_u32_from_le_bytes(data.subrange(pos, pos + 4)) as int;
    assert(count == entries.len());
    assert(data.len() >= pos + 4 + 12 * count);
    assert forall|i: int| 0 <= i < count implies spec_entry_at(data, pos + 4 + 12 * i)
        == ms[i] by {
        lemma_manifest_bytes_at(ms, i);
        let base = pos + 4 + 12 * i;
        assert(data.subrange(base, base + 4) =~= mb.subrange(12 * i, 12 * i + 12).subrange(
            0,
            4,
        ));
        assert(data.subrange(base + 4, base + 8) =~= mb.subrange(12 * i, 12 * i + 12)
            .subrange(4, 8));
        assert(data.subrange(base + 8, base + 12) =~= mb.subrange(12 * i, 12 * i + 12)
            .subrange(8, 12));
        assert(spec_entry_bytes(ms[i]).subrange(0, 4) =~= spec_u32_to_le_bytes(ms[i].op_id));
        assert(spec_entry_bytes(ms[i]).subrange(4, 8) =~= spec_u32_to_le_bytes(ms[i].offset));
        assert(spec_entry_bytes(ms[i]).subrange(8, 12) =~= spec_u32_to_le_bytes(ms[i].size));
    }
    assert(Seq::new(count as nat, |i: int| spec_entry_at(data, pos + 4 + 12 * i)) =~= ms);
}

} // verus!
