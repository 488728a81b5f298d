//! The format's laws: what holds of a packed container when it is read back.
//!
//! These proofs connect the packer's output model (`spec_container_bytes`)
//! with the reader's input model (`spec_parse`, `spec_get_blob`,
//! `spec_verify_sig`).

use vstd::prelude::*;
use vstd::utf8::{encode_utf8, valid_utf8};

use crate::codec::{
    blobs_of, lemma_header_bytes_len, lemma_manifest_bytes_len,
    lemma_parse_header_of_container, lemma_parse_manifest_of_container, lemma_store_bytes_at,
    lemma_store_bytes_len, lemma_store_len_take_le, lemma_store_len_take_succ,
    spec_container_bytes, spec_has_sig_trailer, spec_header_len, spec_manifest_entries,
    spec_padded_blob, spec_parse, spec_store_len, spec_stored_size, ClfError,
    HeaderModel, ParsedClf,
};
use crate::format::{spec_sig_magic, ClfKind, ManifestEntry, CLF_VERSION};
use crate::hash::sha256_of;
use crate::packer::unique_ids;
use crate::reader::{spec_lookup, ClfReader};

verus! {

/// A blob stored without alignment is exactly itself.
pub proof fn lemma_padded_blob_align_none(b: Seq<u8>)
    ensures
        spec_padded_blob(b, 0) == b,
{
    assert(spec_padded_blob(b, 0) =~= b);
}

/// In a manifest without repeated identifiers, looking an identifier up finds
/// its own entry.
pub proof fn lemma_lookup_unique(ms: Seq<ManifestEntry>, i: int)
    requires
        0 <= i < ms.len(),
        forall|a: int, b: int| 0 <= a < b < ms.len() ==> ms[a].op_id != ms[b].op_id,
    ensures
        spec_lookup(ms, ms[i].op_id) == Some(ms[i]),
    decreases ms.len(),
{
    if i < ms.len() - 1 {
        assert(ms.last().op_id != ms[i].op_id);
        assert(ms.drop_last()[i] == ms[i]);
        lemma_lookup_unique(ms.drop_last(), i);
    }
}

/// Looking up an identifier no entry carries finds nothing.
pub proof fn lemma_lookup_absent(ms: Seq<ManifestEntry>, id: u32)
    requires
        forall|k: int| 0 <= k < ms.len() ==> ms[k].op_id != id,
    ensures
        spec_lookup(ms, id) is None,
    decreases ms.len(),
{
    if ms.len() > 0 {
        lemma_lookup_absent(ms.drop_last(), id);
    }
}

/// Whether some input entry carries the identifier.
pub open spec fn has_entry_id(entries: Seq<(u32, Seq<u8>)>, id: u32) -> bool {
    exists|i: int| 0 <= i < entries.len() && entries[i].0 == id
}

/// The identifiers of the model entries.
pub open spec fn model_ids(entries: Seq<(u32, Seq<u8>)>) -> Seq<u32> {
    entries.map_values(|e: (u32, Seq<u8>)| e.0)
}

/// What a packed, unsigned container decodes to: the header fields the packer
/// was given (or the version-1 defaults), one manifest entry per input pair,
/// and a blob store of exactly the stored blobs' total length. Holds whenever
/// the blob store does not itself end in bytes that mimic a signature block.
pub proof fn lemma_parse_container(
    entries: Seq<(u32, Seq<u8>)>,
    version: u8,
    vendor: Seq<u8>,
    target: Seq<u8>,
    align: u8,
    kind: ClfKind,
)
    requires
        version <= CLF_VERSION,
        vendor.len() <= u32::MAX,
        version >= 2 ==> target.len() <= u32::MAX,
        valid_utf8(vendor),
        version >= 2 ==> valid_utf8(target),
        entries.len() <= u32::MAX,
        spec_store_len(blobs_of(entries), align) <= u32::MAX,
        !spec_has_sig_trailer(spec_container_bytes(entries, version, vendor, target, align, kind)),
    ensures
        spec_parse(spec_container_bytes(entries, version, vendor, target, align, kind)) == Ok::<
            ParsedClf,
            ClfError,
        >(
            ParsedClf {
                header: HeaderModel {
                    version,
                    vendor,
                    target: if version >= 2 {
                        target
                    } else {
                        Seq::empty()
                    },
                    blob_alignment: if version >= 2 {
                        align
                    } else {
                        0
                    },
                    kind: if version >= 2 {
                        kind
                    } else {
                        ClfKind::Compute
                    },
                    header_end: spec_header_len(version, vendor, target),
                },
                manifest: spec_manifest_entries(entries, align),
                blob_store_offset: spec_header_len(version, vendor, target) + 4 + 12
                    * entries.len(),
                blob_store_len: spec_store_len(blobs_of(entries), align) as int,
            },
        ),
{
    let cb = spec_container_bytes(entries, version, vendor, target, align, kind);
    assert(cb.subrange(0, cb.len() as int) =~= cb);
    lemma_parse_header_of_container(entries, version, vendor, target, align, kind, cb);
    lemma_parse_manifest_of_container(entries, version, vendor, target, align, kind, cb);
    lemma_header_bytes_len(version, vendor, target, align, kind);
    lemma_manifest_bytes_len(spec_manifest_entries(entries, align));
    lemma_store_bytes_len(blobs_of(entries), align);
    vstd::bytes::lemma_auto_spec_u32_to_from_le_bytes();
}

/// What a packed, signed container decodes to: the same header and manifest
/// as the unsigned one, with the same blob store length — the signature block
/// is recognized and excluded.
pub proof fn lemma_parse_signed_container(
    entries: Seq<(u32, Seq<u8>)>,
    version: u8,
    vendor: Seq<u8>,
    target: Seq<u8>,
    align: u8,
    kind: ClfKind,
)
    requires
        version <= CLF_VERSION,
        vendor.len() <= u32::MAX,
        version >= 2 ==> target.len() <= u32::MAX,
        valid_utf8(vendor),
        version >= 2 ==> valid_utf8(target),
        entries.len() <= u32::MAX,
        spec_store_len(blobs_of(entries), align) <= u32::MAX,
        sha256_of(spec_container_bytes(entries, version, vendor, target, align, kind)).len()
            == 32,
    ensures
        ({
            let cb = spec_container_bytes(entries, version, vendor, target, align, kind);
            let signed = cb + spec_sig_magic() + sha256_of(cb);
            spec_parse(signed) == Ok::<ParsedClf, ClfError>(
                ParsedClf {
                    header: HeaderModel {
                        version,
                        vendor,
                        target: if version >= 2 {
                            target
                        } else {
                            Seq::empty()
                        },
                        blob_alignment: if version >= 2 {
                            align
                        } else {
                            0
                        },
                        kind: if version >= 2 {
                            kind
                        } else {
                            ClfKind::Compute
                        },
                        header_end: spec_header_len(version, vendor, target),
                    },
                    manifest: spec_manifest_entries(entries, align),
                    blob_store_offset: spec_header_len(version, vendor, target) + 4 + 12
                        * entries.len(),
                    blob_store_len: spec_store_len(blobs_of(entries), align) as int,
                },
            )
        }),
{
    let cb = spec_container_bytes(entries, version, vendor, target, align, kind);
    let signed = cb + spec_sig_magic() + sha256_of(cb);
    assert(signed.len() == cb.len() + 36);
    assert(signed.subrange(0, cb.len() as int) =~= cb);
    lemma_parse_header_of_container(entries, version, vendor, target, align, kind, signed);
    lemma_parse_manifest_of_container(entries, version, vendor, target, align, kind, signed);
    lemma_header_bytes_len(version, vendor, target, align, kind);
    lemma_manifest_bytes_len(spec_manifest_entries(entries, align));
    lemma_store_bytes_len(blobs_of(entries), align);
    vstd::bytes::lemma_auto_spec_u32_to_from_le_bytes();
    assert(signed.subrange(signed.len() - 36, signed.len() - 32) =~= spec_sig_magic());
    assert(spec_has_sig_trailer(signed));
}

/// Round trip: a reader over a packed container serves every packed blob back
/// (padded to the alignment; unchanged when the alignment is 0), reports
/// identifiers that were never packed as absent, and carries the vendor and
/// target the packer was given (the version-1 layout stores no target).
pub proof fn lemma_pack_round_trip(
    r: ClfReader,
    entries: Seq<(u32, Seq<u8>)>,
    version: u8,
    vendor: Seq<char>,
    target: Seq<char>,
    align: u8,
    kind: ClfKind,
)
    requires
        r.wf(),
        r.data@ == spec_container_bytes(
            entries,
            version,
            encode_utf8(vendor),
            encode_utf8(target),
            align,
            kind,
        ),
        !spec_has_sig_trailer(r.data@),
        version <= CLF_VERSION,
        encode_utf8(vendor).len() <= u32::MAX,
        version >= 2 ==> encode_utf8(target).len() <= u32::MAX,
        entries.len() <= u32::MAX,
        spec_store_len(blobs_of(entries), align) <= u32::MAX,
        unique_ids(model_ids(entries)),
    ensures
        r.header.vendor@ == vendor,
        r.header.target@ == (if version >= 2 {
            target
        } else {
            Seq::<char>::empty()
        }),
        r.header.blob_alignment == (if version >= 2 {
            align
        } else {
            0
        }),
        r.header.kind == (if version >= 2 {
            kind
        } else {
            ClfKind::Compute
        }),
        forall|i: int|
            0 <= i < entries.len() ==> r.spec_get_blob(#[trigger] entries[i].0) == Ok::<
                Option<Seq<u8>>,
                ClfError,
            >(Some(spec_padded_blob(entries[i].1, align))),
        forall|id: u32|
            !has_entry_id(entries, id) ==> r.spec_get_blob(id) == Ok::<
                Option<Seq<u8>>,
                ClfError,
            >(None),
{
    broadcast use vstd::utf8::encode_utf8_decode_utf8;

    let vb = encode_utf8(vendor);
    let tb = encode_utf8(target);
    let cb = spec_container_bytes(entries, version, vb, tb, align, kind);
    let blobs = blobs_of(entries);
    let ms = spec_manifest_entries(entries, align);
    vstd::utf8::encode_utf8_valid_utf8(vendor);
    vstd::utf8::encode_utf8_valid_utf8(target);
    lemma_parse_container(entries, version, vb, tb, align, kind);
    assert(vstd::utf8::decode_utf8(Seq::<u8>::empty()) =~= Seq::<char>::empty());

    let bso = spec_header_len(version, vb, tb) + 4 + 12 * entries.len();
    assert(r.manifest@ == ms);
    assert(r.blob_store_offset == bso);
    assert(r.blob_store_len == spec_store_len(blobs, align) as int);

    lemma_header_bytes_len(version, vb, tb, align, kind);
    lemma_manifest_bytes_len(ms);
    lemma_store_bytes_len(blobs, align);
    vstd::bytes::lemma_auto_spec_u32_to_from_le_bytes();
    let sb = crate::codec::spec_store_bytes(blobs, align);
    assert(cb.len() == bso + sb.len());
    assert forall|k: int| 0 <= k < sb.len() implies cb[bso + k] == sb[k] by {}

    assert forall|i: int| 0 <= i < entries.len() implies r.spec_get_blob(
        #[trigger] entries[i].0,
    ) == Ok::<Option<Seq<u8>>, ClfError>(Some(spec_padded_blob(entries[i].1, align))) by {
        assert(ms[i].op_id == entries[i].0);
        assert forall|a: int, b: int| 0 <= a < b < ms.len() implies ms[a].op_id
            != ms[b].op_id by {
            assert(model_ids(entries)[a] == entries[a].0);
            assert(model_ids(entries)[b] == entries[b].0);
        }
        lemma_lookup_unique(ms, i);
        lemma_store_len_take_succ(blobs, align, i);
        lemma_store_len_take_le(blobs, align, i + 1);
        assert(blobs[i] == entries[i].1);
        let off = spec_store_len(blobs.take(i), align) as int;
        let sz = spec_stored_size(entries[i].1.len(), align) as int;
        assert(ms[i].offset == off && ms[i].size == sz);
        assert(ms[i].offset + ms[i].size <= r.blob_store_len);
        lemma_store_bytes_at(blobs, align, i);
        assert(r.data@.subrange(bso + off, bso + off + sz) =~= sb.subrange(off, off + sz));
    }

    assert forall|id: u32| !has_entry_id(entries, id) implies r.spec_get_blob(id) == Ok::<
        Option<Seq<u8>>,
        ClfError,
    >(None) by {
        assert forall|k: int| 0 <= k < ms.len() implies ms[k].op_id != id by {
            assert(ms[k].op_id == entries[k].0);
            if entries[k].0 == id {
                assert(has_entry_id(entries, id));
            }
        }
        lemma_lookup_absent(ms, id);
    }
}

/// A version-1 container always reads back with an empty target, alignment 0
/// and kind Compute: the version-1 layout stores none of these fields.
pub proof fn lemma_v1_defaults(data: Seq<u8>)
    requires
        spec_parse(data) is Ok,
        spec_parse(data)->Ok_0.header.version < 2,
    ensures
        spec_parse(data)->Ok_0.header.target == Seq::<u8>::empty(),
        spec_parse(data)->Ok_0.header.blob_alignment == 0,
        spec_parse(data)->Ok_0.header.kind == ClfKind::Compute,
{
}

/// Signing then verifying succeeds: the block `append_signature` writes is
/// the one `verify_signature` recomputes and compares against.
pub proof fn lemma_sign_then_verify(data: Seq<u8>)
    requires
        sha256_of(data).len() == 32,
    ensures
        ClfReader::spec_verify_sig(data + spec_sig_magic() + sha256_of(data)) == Ok::<
            bool,
            ClfError,
        >(true),
{
    let s = data + spec_sig_magic() + sha256_of(data);
    assert(s.len() == data.len() + 36);
    assert(s.subrange(s.len() - 36, s.len() - 32) =~= spec_sig_magic());
    assert(s.subrange(s.len() - 32, s.len() as int) =~= sha256_of(data));
    assert(s.subrange(0, s.len() - 36) =~= data);
}

} // verus!
