//! Durable Seal and WAL archives.

use strom_storage::domain::archive::{decode_bound, DecodeError, EncodedBytesOverMax, EncodeError};
use strom_storage::domain::bounds::{
    CONTENT_TYPE_BYTES_MAX, SEAL_ENCODED_BYTES_MAX, STREAM_PATH_BYTES_MAX, WAL_ENCODED_BYTES_MAX,
    WAL_RUN_FACTS_MAX,
};
use strom_storage::domain::coordinate::{BatchId, OwnerToken, SealGeneration, StreamUid};
use strom_storage::domain::directory::DirectoryKey;
use strom_storage::domain::partition::PartitionId;
use strom_storage::domain::protocol::{
    ExpiresAt, ExpiryPolicy, ProtocolField, StreamContentType, StreamLifecycle, StreamTtl,
};
use strom_storage::domain::seal::{
    Seal, SealIdentity, SortedRun, TableRef, TreeVersion, WalReplayPoint,
};
use strom_storage::domain::seal_codec::{decode_archived_seal, decode_seal, encode_seal};
use strom_storage::domain::table::{AttemptId, FreshIdentity, StoreKind, TableObjectId};
use strom_storage::domain::wal::{
    BoundedNonEmptyVec, OperationFact, WalBody, WalIdentity, WalObject,
};
use strom_storage::domain::wal_codec::{
    decode_archived_wal, decode_expiry, decode_lifecycle, decode_wal, encode_expiry,
    encode_lifecycle, encode_wal,
};

const SEAL_ARCHIVE_FIXTURE: &[u8] = &[
    0, 17, 34, 51, 68, 85, 102, 119, 136, 153, 170, 187, 204, 221, 238, 255, 1, 0, 0, 0, 0, 0, 0,
    0, 0, 0, 0, 0, 0, 0, 0, 0, 0, 0, 0, 0, 0, 0, 0, 0, 0, 215, 255, 255, 255, 0, 0, 0, 0, 207, 255,
    255, 255, 0, 0, 0, 0,
];

const WAL_ARCHIVE_FIXTURE: &[u8] = &[
    101, 118, 101, 110, 116, 115, 47, 97, 98, 99, 97, 112, 112, 108, 105, 99, 97, 116, 105, 111,
    110, 47, 106, 115, 111, 110, 59, 32, 99, 104, 97, 114, 115, 101, 116, 61, 117, 116, 102, 45,
    56, 0, 214, 255, 255, 255, 10, 0, 0, 0, 7, 0, 0, 0, 0, 0, 0, 0, 159, 0, 0, 0, 208, 255, 255,
    255, 0, 0, 0, 0, 0, 0, 0, 0, 0, 0, 0, 0, 0, 0, 0, 0, 0, 0, 17, 34, 51, 68, 85, 102, 119, 136,
    153, 170, 187, 204, 221, 238, 255, 9, 0, 0, 0, 0, 0, 0, 0, 2, 0, 0, 0, 0, 0, 0, 0, 0, 181, 255,
    255, 255, 1, 0, 0, 0,
];

const CONTENT_TYPE_SUBTYPE_LEN: usize = 243;

/// Nonempty path segments and lowercase content types of two parts.
fn grammar(field: ProtocolField<'_>) -> bool {
    match field {
        ProtocolField::StreamPath(path) => path.split('/').all(|segment| !segment.is_empty()),
        ProtocolField::ContentType(kind) => {
            kind.contains('/') && !kind.chars().any(|letter| letter.is_ascii_uppercase())
        }
        ProtocolField::ExpiresAt(_) => true,
    }
}

fn partition() -> PartitionId {
    "00112233-4455-6677-8899-aabbccddeeff".parse().unwrap()
}

fn directory_key(raw: &str) -> DirectoryKey {
    DirectoryKey::new(raw.as_bytes().to_vec(), &grammar).unwrap()
}

fn content_type(raw: &str) -> StreamContentType {
    StreamContentType::new(raw.to_string(), &grammar).unwrap()
}

fn uid(raw: u64) -> StreamUid {
    StreamUid::try_from(raw).unwrap()
}

fn batch(raw: u64) -> BatchId {
    BatchId::try_from(raw).unwrap()
}

fn generation(raw: u64) -> SealGeneration {
    SealGeneration::try_from(raw).unwrap()
}

fn facts(values: Vec<OperationFact>) -> BoundedNonEmptyVec<OperationFact> {
    BoundedNonEmptyVec::try_from(values).unwrap()
}

fn genesis_seal() -> Seal {
    Seal::new(
        partition(),
        SealGeneration::genesis(),
        WalReplayPoint::Genesis,
        TreeVersion::empty(),
        TreeVersion::empty(),
    )
    .unwrap()
}

fn tree_with_table(generation: SealGeneration, store: StoreKind, ordinal: u32) -> TreeVersion {
    let fresh =
        FreshIdentity::new(generation, AttemptId::new(SealGeneration::genesis(), 4), ordinal)
            .unwrap();
    let table = TableRef::new(TableObjectId::new(fresh, store), 123).unwrap();
    TreeVersion::try_from(vec![SortedRun::try_from(vec![table]).unwrap()]).unwrap()
}

fn representative_seal() -> Seal {
    Seal::new(
        partition(),
        generation(2),
        WalReplayPoint::Through {
            batch: batch(9),
            owner: OwnerToken::from(SealGeneration::genesis()),
        },
        tree_with_table(generation(2), StoreKind::Directory, 0),
        tree_with_table(generation(2), StoreKind::Ledger, 1),
    )
    .unwrap()
}

fn one_fact_run() -> WalObject {
    WalObject::new(
        partition(),
        batch(9),
        OwnerToken::from(generation(2)),
        WalBody::Run(facts(vec![OperationFact::StreamCreated {
            path: directory_key("events/abc"),
            uid: uid(7),
            content_type: content_type("application/json; charset=utf-8"),
            expiry: ExpiryPolicy::Never,
            lifecycle: StreamLifecycle::Open,
        }])),
    )
}

fn fence() -> WalObject {
    WalObject::new(partition(), batch(10), OwnerToken::from(generation(4)), WalBody::Fence)
}

fn misaligned(encoded: &[u8]) -> Vec<u8> {
    let mut storage = vec![0];
    storage.extend_from_slice(encoded);
    storage
}

#[test]
fn seal_archive_fixture_anchors_the_root() {
    let seal = genesis_seal();
    let encoded = encode_seal(&seal).unwrap();
    assert_eq!(SEAL_ARCHIVE_FIXTURE.len(), encoded.len(), "Seal fixture length changed");
    assert_eq!(SEAL_ARCHIVE_FIXTURE, encoded.as_slice(), "Seal bytes are a durable format anchor");
    assert_eq!(
        Ok(seal.clone()),
        decode_seal(&seal.identity(), SEAL_ARCHIVE_FIXTURE),
        "fixture bytes decode independently of the encoder"
    );
}

#[test]
fn wal_archive_fixture_anchors_the_root() {
    let object = one_fact_run();
    let encoded = encode_wal(&object).unwrap();
    assert_eq!(WAL_ARCHIVE_FIXTURE.len(), encoded.len(), "WAL fixture length changed");
    assert_eq!(WAL_ARCHIVE_FIXTURE, encoded.as_slice(), "WAL bytes are a durable format anchor");
    assert_eq!(
        Ok(one_fact_run()),
        decode_wal(&object.identity(), WAL_ARCHIVE_FIXTURE, &grammar),
        "fixture bytes decode independently of the encoder"
    );
}

#[test]
fn a_stream_created_closed_is_archived_with_its_lifecycle() {
    let created = |lifecycle| OperationFact::StreamCreated {
        path: directory_key("events/abc"),
        uid: uid(7),
        content_type: content_type("application/json; charset=utf-8"),
        expiry: ExpiryPolicy::Never,
        lifecycle,
    };
    let build = || {
        WalObject::new(
            partition(),
            batch(9),
            OwnerToken::from(generation(2)),
            WalBody::Run(facts(vec![created(StreamLifecycle::Closed)])),
        )
    };
    let root = WAL_ARCHIVE_FIXTURE.len() - 41;
    let mut expected = WAL_ARCHIVE_FIXTURE.to_vec();
    expected.insert(root, 1);
    let pointer = expected.len() - 8;
    assert_eq!(181, expected[pointer]);
    expected[pointer] = 180;
    assert_eq!(Ok(expected.clone()), encode_wal(&build()), "the lifecycle ends the fact's frame");
    assert_eq!(Ok(build()), decode_wal(&build().identity(), &expected, &grammar));

    expected[root] = 0;
    assert_eq!(
        Ok(one_fact_run()),
        decode_wal(&build().identity(), &expected, &grammar),
        "an open lifecycle may be archived too"
    );
    expected[root] = 2;
    assert_eq!(
        Err(DecodeError::MalformedArchive),
        decode_wal(&build().identity(), &expected, &grammar)
    );

    let mixed = || {
        WalObject::new(
            partition(),
            batch(9),
            OwnerToken::from(generation(2)),
            WalBody::Run(facts(vec![
                created(StreamLifecycle::Open),
                OperationFact::StreamDeleted { path: directory_key("events/abc"), uid: uid(7) },
                created(StreamLifecycle::Closed),
            ])),
        )
    };
    let mut encoded = encode_wal(&mixed()).unwrap();
    let frames = encoded.len() - 41 - 3 * 43;
    assert_eq!(
        vec![(0, 0), (2, 0), (0, 1)],
        (0..3)
            .map(|fact| (encoded[frames + 43 * fact], encoded[frames + 43 * fact + 42]))
            .collect::<Vec<(u8, u8)>>()
    );
    encoded[frames + 43 + 17..frames + 43 + 25].fill(0x80);
    assert_eq!(Ok(mixed()), decode_wal(&mixed().identity(), &encoded, &grammar));
}

#[test]
fn nonempty_seal_manifest_roundtrips() {
    let seal = representative_seal();
    let encoded = encode_seal(&seal).unwrap();
    assert_eq!(57 + 2 * 8 + 2 * 37, encoded.len());
    assert_eq!(Ok(representative_seal()), decode_seal(&seal.identity(), &encoded));
}

#[test]
fn every_wal_fact_variant_roundtrips() {
    let build = || {
        WalObject::new(
            partition(),
            batch(9),
            OwnerToken::from(generation(2)),
            WalBody::Run(facts(vec![
                OperationFact::StreamCreated {
                    path: directory_key("events/abc"),
                    uid: uid(7),
                    content_type: content_type("application/json"),
                    expiry: ExpiryPolicy::Never,
                    lifecycle: StreamLifecycle::Open,
                },
                OperationFact::StreamClosed { path: directory_key("events/abc"), uid: uid(7) },
                OperationFact::StreamDeleted { path: directory_key("events/abc"), uid: uid(7) },
            ])),
        )
    };
    let object = build();
    let encoded = encode_wal(&object).unwrap();
    assert_eq!(Ok(build()), decode_wal(&object.identity(), &encoded, &grammar));
}

#[test]
fn closes_and_deletes_decode_whatever_stands_for_their_content_type() {
    let build = || {
        WalObject::new(
            partition(),
            batch(9),
            OwnerToken::from(generation(2)),
            WalBody::Run(facts(vec![
                OperationFact::StreamClosed { path: directory_key("events/abc"), uid: uid(7) },
                OperationFact::StreamCreated {
                    path: directory_key("events/abd"),
                    uid: uid(8),
                    content_type: content_type("application/octet-stream"),
                    expiry: ExpiryPolicy::Never,
                    lifecycle: StreamLifecycle::Open,
                },
                OperationFact::StreamDeleted { path: directory_key("events/abe"), uid: uid(9) },
            ])),
        )
    };
    let identity = build().identity();
    let encoded = encode_wal(&build()).unwrap();
    let frames = encoded.len() - 41 - 3 * 42;
    let text = |fact: usize| frames + 42 * fact + 17;
    assert_eq!(vec![1, 0, 2], vec![encoded[frames], encoded[frames + 42], encoded[frames + 84]]);
    assert_eq!(&[0u8; 8], &encoded[text(0)..text(0) + 8]);
    for garbage in [0x80u8, 0xfe, 0xff] {
        let mut bytes = encoded.clone();
        bytes[text(0)..text(0) + 8].fill(garbage);
        bytes[text(2)..text(2) + 8].fill(garbage);
        assert_eq!(Ok(build()), decode_wal(&identity, &bytes, &grammar));
    }
    let mut bytes = encoded;
    bytes[text(1)..text(1) + 8].fill(0x80);
    assert_eq!(
        Err(DecodeError::MalformedArchive),
        decode_wal(&identity, &bytes, &grammar),
        "a creation's content type is read"
    );
}

#[test]
fn wal_checked_archive_enforces_structure_alignment_bound_and_identity() {
    let object = fence();
    let encoded = encode_wal(&object).unwrap();
    assert_eq!(
        Ok(fence()),
        decode_wal(&object.identity(), &misaligned(&encoded)[1..], &grammar),
        "object-store slices do not promise archive alignment"
    );
    assert_eq!(
        Err(DecodeError::MalformedArchive),
        decode_wal(&object.identity(), &encoded[..encoded.len() - 1], &grammar),
        "checked access rejects a truncated archive"
    );
    assert_eq!(
        Err(DecodeError::IdentityMismatch),
        decode_wal(&WalIdentity::new(partition(), batch(11)), &encoded, &grammar),
        "the durable location and archived identity are one decoder input"
    );
    let oversized = vec![0; WAL_ENCODED_BYTES_MAX + 1];
    assert_eq!(
        Err(DecodeError::EncodedBytesOverMax {
            bytes_max: WAL_ENCODED_BYTES_MAX,
            bytes_actual: oversized.len(),
        }),
        decode_wal(&object.identity(), &oversized, &grammar),
        "the complete byte bound runs before structural access"
    );
}

#[test]
fn seal_checked_archive_enforces_structure_alignment_bound_and_identity() {
    let seal = genesis_seal();
    let encoded = encode_seal(&seal).unwrap();
    assert_eq!(
        Ok(genesis_seal()),
        decode_seal(&seal.identity(), &misaligned(&encoded)[1..]),
        "object-store slices do not promise archive alignment"
    );
    assert_eq!(
        Err(DecodeError::MalformedArchive),
        decode_seal(&seal.identity(), &encoded[..encoded.len() - 1]),
        "checked access rejects a truncated archive"
    );
    assert_eq!(
        Err(DecodeError::IdentityMismatch),
        decode_seal(&SealIdentity::new(partition(), generation(2)), &encoded),
        "the durable location and archived identity are one decoder input"
    );
    let oversized = vec![0; SEAL_ENCODED_BYTES_MAX + 1];
    assert_eq!(
        Err(DecodeError::EncodedBytesOverMax {
            bytes_max: SEAL_ENCODED_BYTES_MAX,
            bytes_actual: oversized.len(),
        }),
        decode_seal(&seal.identity(), &oversized),
        "the complete byte bound runs before structural access"
    );
}

#[test]
fn canonical_content_type_boundary_roundtrips_through_wal() {
    let subtype = "b".repeat(CONTENT_TYPE_SUBTYPE_LEN);
    let spelling = format!("a/{subtype};charset=x");
    let boundary = content_type(&spelling);
    assert_eq!(CONTENT_TYPE_BYTES_MAX - 1, boundary.to_string().len());
    let canonical = content_type(&format!("a/{subtype}; charset=x"));
    assert_eq!(
        CONTENT_TYPE_BYTES_MAX,
        canonical.to_string().len(),
        "the accepted boundary value has an in-bound canonical spelling"
    );
    let build = || {
        WalObject::new(
            partition(),
            batch(1),
            OwnerToken::from(SealGeneration::genesis()),
            WalBody::Run(facts(vec![OperationFact::StreamCreated {
                path: directory_key("events/abc"),
                uid: uid(1),
                content_type: canonical.clone(),
                expiry: ExpiryPolicy::Never,
                lifecycle: StreamLifecycle::Open,
            }])),
        )
    };
    let object = build();
    let encoded = encode_wal(&object).unwrap();
    assert_eq!(
        Ok(build()),
        decode_wal(&object.identity(), &encoded, &grammar),
        "every accepted content type remains parseable after durable canonicalization"
    );
    assert_eq!(
        None,
        StreamContentType::new(format!("a/{subtype}b; charset=x"), &grammar),
        "one byte more is refused"
    );
}

#[test]
fn durable_content_types_must_use_the_canonical_spelling() {
    let object = one_fact_run();
    let mut encoded = encode_wal(&object).unwrap();
    let at = encoded
        .windows(b"application/json".len())
        .position(|window| window == b"application/json")
        .unwrap();
    encoded[at] = b'A';
    assert_eq!(
        Err(DecodeError::InvalidBody),
        decode_wal(&object.identity(), &encoded, &grammar)
    );
}

#[test]
fn unreachable_leading_bytes_are_tolerated_but_never_emitted() {
    let object = fence();
    let encoded = encode_wal(&object).unwrap();
    let mut prefixed = vec![0xaa, 0xbb, 0xcc];
    prefixed.extend_from_slice(&encoded);
    assert_eq!(Ok(fence()), decode_wal(&object.identity(), &prefixed, &grammar));
    assert_ne!(encode_wal(&object).unwrap(), prefixed);
}

#[test]
fn checked_access_accepts_a_misaligned_byte_slice() {
    let seal = genesis_seal();
    let encoded = encode_seal(&seal).unwrap();
    assert_eq!(
        decode_seal(&seal.identity(), &misaligned(&encoded)[1..]),
        Ok(genesis_seal())
    );
}

#[test]
fn every_truncation_is_rejected() {
    let seal = genesis_seal();
    let encoded = encode_seal(&seal).unwrap();
    for length in 0..encoded.len() {
        assert_eq!(
            decode_seal(&seal.identity(), &encoded[..length]),
            Err(DecodeError::MalformedArchive),
            "truncation at byte {length} must fail closed"
        );
    }
}

#[test]
fn byte_bound_precedes_archive_access() {
    let bytes = vec![0; SEAL_ENCODED_BYTES_MAX + 1];
    assert_eq!(
        decode_seal(&genesis_seal().identity(), &bytes),
        Err(DecodeError::EncodedBytesOverMax {
            bytes_max: SEAL_ENCODED_BYTES_MAX,
            bytes_actual: bytes.len(),
        })
    );
}

#[test]
fn durable_location_is_checked_before_manifest_reconstruction() {
    let seal = genesis_seal();
    let wrong = SealIdentity::new(seal.identity().partition(), generation(2));
    assert_eq!(
        decode_seal(&wrong, &encode_seal(&seal).unwrap()),
        Err(DecodeError::IdentityMismatch)
    );
}

#[test]
fn decode_rejects_an_invalid_tree_shape() {
    let seal = genesis_seal();
    let octets = *partition().as_bytes();
    let empty_run = (octets, 1, (0, 0, 0), vec![Vec::new()], Vec::new());
    assert_eq!(
        decode_archived_seal(&seal.identity(), &empty_run),
        Err(DecodeError::InvalidBody),
        "a run without tables"
    );
    let foreign_store =
        (octets, 2, (0, 0, 0), vec![vec![(2, 1, 4, 0, 1, 123)]], Vec::new());
    assert_eq!(
        decode_archived_seal(&SealIdentity::new(partition(), generation(2)), &foreign_store),
        Err(DecodeError::InvalidBody),
        "a Ledger table in the Directory tree"
    );
    let whole = (octets, 2, (0, 0, 0), vec![vec![(2, 1, 4, 0, 0, 123)]], Vec::new());
    assert!(
        decode_archived_seal(&SealIdentity::new(partition(), generation(2)), &whole).is_ok()
    );
}

#[test]
fn complete_archive_bound_is_shared_by_encode_and_decode() {
    let bytes = encode_seal(&genesis_seal()).unwrap();
    let first_crossing = bytes.len() - 1;
    assert_eq!(Ok(()), decode_bound(&bytes, bytes.len()));
    assert_eq!(
        Err(EncodedBytesOverMax { bytes_max: first_crossing, bytes_actual: bytes.len() }),
        decode_bound(&bytes, first_crossing),
        "decode rejects the same complete archive boundary"
    );

    let runs = |first: u64| {
        let mut runs = Vec::new();
        for run in 0..8u64 {
            let mut tables = Vec::new();
            for table in 0..2048u32 {
                let fresh = FreshIdentity::new(
                    generation(first),
                    AttemptId::new(SealGeneration::genesis(), run),
                    table,
                )
                .unwrap();
                let store = if first == 2 { StoreKind::Directory } else { StoreKind::Ledger };
                tables.push(TableRef::new(TableObjectId::new(fresh, store), 1).unwrap());
            }
            runs.push(SortedRun::try_from(tables).unwrap());
        }
        TreeVersion::try_from(runs).unwrap()
    };
    let crowded = Seal {
        partition: partition(),
        generation: generation(9),
        replay: WalReplayPoint::Genesis,
        directory: runs(2),
        ledger: runs(3),
    };
    assert_eq!(
        Err(EncodeError::EncodedBytesOverMax { bytes_max: SEAL_ENCODED_BYTES_MAX }),
        encode_seal(&crowded),
        "encode checks the complete archive length"
    );
}

#[test]
fn protocol_adapters_round_trip_through_canonical_domain_construction() {
    let at = 1_725_000_000_123_456_789i128;
    let build = || {
        WalObject::new(
            partition(),
            batch(1),
            OwnerToken::from(SealGeneration::genesis()),
            WalBody::Run(facts(vec![OperationFact::StreamCreated {
                path: directory_key("events/abc"),
                uid: uid(1),
                content_type: content_type("text/plain; charset=utf-8"),
                expiry: ExpiryPolicy::AbsoluteExpiry(ExpiresAt { unix_nanoseconds: at }),
                lifecycle: StreamLifecycle::Closed,
            }])),
        )
    };
    let object = build();
    let encoded = encode_wal(&object).unwrap();
    assert_eq!(Ok(build()), decode_wal(&object.identity(), &encoded, &grammar));

    let absolute = ExpiryPolicy::AbsoluteExpiry(ExpiresAt { unix_nanoseconds: at });
    assert_eq!(
        Some(absolute),
        decode_expiry(encode_expiry(absolute), &grammar),
        "expiry is reconstructed through its domain conversions"
    );
    let past = ExpiryPolicy::AbsoluteExpiry(ExpiresAt { unix_nanoseconds: -7 });
    assert_eq!(Some(past), decode_expiry(encode_expiry(past), &grammar));
    let sliding = ExpiryPolicy::SlidingTtl(StreamTtl { seconds: 3_600 });
    assert_eq!(Some(sliding), decode_expiry(encode_expiry(sliding), &grammar));
    assert_eq!(
        Some(ExpiryPolicy::Never),
        decode_expiry(encode_expiry(ExpiryPolicy::Never), &grammar)
    );
    assert_eq!(
        StreamLifecycle::Closed,
        decode_lifecycle(encode_lifecycle(StreamLifecycle::Closed)),
        "lifecycle variants map exhaustively"
    );
    assert_eq!(StreamLifecycle::Open, decode_lifecycle(encode_lifecycle(StreamLifecycle::Open)));
}

#[test]
fn expiry_adapter_rejects_a_structurally_valid_zero_ttl() {
    assert_eq!(
        None,
        decode_expiry((1, 0), &grammar),
        "checked archive access does not replace protocol-domain validation"
    );
}

#[test]
fn fact_count_is_gated_before_result_materialization() {
    let identity = WalIdentity::new(partition(), batch(1));
    let octets = *partition().as_bytes();
    let deleted = || (2u8, b"events/abc".to_vec(), 1u64, String::new(), (0u8, 0u128), 0u8);

    let empty = (octets, 1, 1, Ok(Vec::new()));
    assert_eq!(
        Err(DecodeError::InvalidBody),
        decode_archived_wal(&identity, &empty, &grammar),
        "a structurally valid archive cannot manufacture an empty run"
    );

    let mut at_max = Vec::new();
    for _ in 0..WAL_RUN_FACTS_MAX {
        at_max.push(OperationFact::StreamDeleted { path: directory_key("events/abc"), uid: uid(1) });
    }
    let at_max = WalObject::new(
        partition(),
        batch(1),
        OwnerToken::from(SealGeneration::genesis()),
        WalBody::Run(facts(at_max)),
    );
    let decoded = decode_wal(&identity, &encode_wal(&at_max).unwrap(), &grammar).unwrap();
    assert_eq!(Some(WAL_RUN_FACTS_MAX), decoded.facts().map(|facts| facts.len()));

    let mut over_max = Vec::new();
    for _ in 0..WAL_RUN_FACTS_MAX + 1 {
        over_max.push(deleted());
    }
    assert_eq!(
        Err(DecodeError::InvalidBody),
        decode_archived_wal(&identity, &(octets, 1, 1, Ok(over_max)), &grammar),
        "an archived count above the named limit is rejected before result allocation"
    );
}

#[test]
fn fact_count_and_field_bounds_imply_the_wal_byte_bound() {
    let path = directory_key(&"a".repeat(STREAM_PATH_BYTES_MAX));
    let kind = content_type(&format!("a/{}", "b".repeat(CONTENT_TYPE_BYTES_MAX - 2)));
    let mut values = Vec::new();
    for _ in 0..WAL_RUN_FACTS_MAX {
        values.push(OperationFact::StreamCreated {
            path: path.clone(),
            uid: uid(1),
            content_type: kind.clone(),
            expiry: ExpiryPolicy::Never,
            lifecycle: StreamLifecycle::Open,
        });
    }
    let object = WalObject::new(
        partition(),
        batch(1),
        OwnerToken::from(SealGeneration::genesis()),
        WalBody::Run(facts(values)),
    );
    let encoded = encode_wal(&object).unwrap();
    assert!(encoded.len() <= WAL_ENCODED_BYTES_MAX);
    assert_eq!(41 + WAL_RUN_FACTS_MAX * (42 + STREAM_PATH_BYTES_MAX + CONTENT_TYPE_BYTES_MAX),
        encoded.len());
}

#[test]
fn archive_failures_spell_their_messages() {
    assert_eq!(
        "encoded value exceeds the 7-byte bound",
        EncodeError::EncodedBytesOverMax { bytes_max: 7 }.to_string()
    );
    assert_eq!("domain value could not be archived", EncodeError::Serialization.to_string());
    assert_eq!(
        "encoded value is 12 bytes; the bound is 7",
        DecodeError::EncodedBytesOverMax { bytes_max: 7, bytes_actual: 12 }.to_string()
    );
}
