//! Coordinates, identities, spellings and manifests.

use strom_storage::domain::bounds::{SST_OBJECT_BYTES_MAX, TREE_RUNS_MAX, WAL_RUN_FACTS_MAX};
use strom_storage::domain::candidate::{
    EncodedAuthoritySeal, EncodedGenesisSeal, EncodedWal, SealCandidateError,
};
use strom_storage::domain::coordinate::{
    BatchId, CoordinateExhausted, OwnerToken, SealGeneration, StreamUid, ZeroCoordinate,
};
use strom_storage::domain::directory::{DirectoryEntry, DirectoryKey, DirectoryKeyError};
use strom_storage::domain::partition::{PartitionId, PartitionIdError};
use strom_storage::domain::protocol::ProtocolField;
use strom_storage::domain::seal::{
    Seal, SealError, SealIdentity, SortedRun, TableRef, TreeVersion, WalReplayPoint,
};
use strom_storage::domain::seal_codec::encode_seal;
use strom_storage::domain::spelling::{
    KeySpellingError, SealKey, SealNamespace, TableKey, WalKey, WalNamespace,
};
use strom_storage::domain::table::{
    AttemptId, FreshIdentity, StoreKind, TableIdentityError, TableObjectId,
};
use strom_storage::domain::wal::{
    BoundedNonEmptyVec, BoundedNonEmptyVecError, OperationFact, WalBody, WalIdentity, WalObject,
};
use strom_storage::domain::wal_codec::encode_wal;

const PARTITION: &str = "00112233-4455-6677-8899-aabbccddeeff";

fn grammar(field: ProtocolField<'_>) -> bool {
    match field {
        ProtocolField::StreamPath(path) => path.split('/').all(|segment| !segment.is_empty()),
        ProtocolField::ContentType(_) | ProtocolField::ExpiresAt(_) => true,
    }
}

fn partition() -> PartitionId {
    PARTITION.parse().unwrap()
}

fn generation(raw: u64) -> SealGeneration {
    SealGeneration::try_from(raw).unwrap()
}

fn path(raw: &str) -> DirectoryKey {
    DirectoryKey::new(raw.as_bytes().to_vec(), &grammar).unwrap()
}

fn table(birth: u64, store: StoreKind, ordinal: u32) -> TableRef {
    let fresh = FreshIdentity::new(
        generation(birth),
        AttemptId::new(SealGeneration::genesis(), 1),
        ordinal,
    )
    .unwrap();
    TableRef::new(TableObjectId::new(fresh, store), 1).unwrap()
}

#[test]
fn partition_id_accepts_every_non_nil_uuid_bit_pattern_and_canonicalizes_spelling() {
    assert_eq!(
        partition().to_string(),
        "00112233-4455-6677-8899-aabbccddeeff",
        "the durable spelling is lowercase and hyphenated"
    );
    assert_eq!(
        "00112233-4455-6677-8899-AABBCCDDEEFF".parse::<PartitionId>(),
        Err(PartitionIdError::Malformed),
        "uppercase aliases are noncanonical"
    );
    assert_eq!(
        "00000000-0000-0000-0000-000000000000".parse::<PartitionId>(),
        Err(PartitionIdError::Nil),
        "nil is the only rejected UUID bit pattern"
    );
    for damaged in [
        "",
        "00112233-4455-6677-8899-aabbccddeef",
        "00112233-4455-6677-8899-aabbccddeeff0",
        "0011223304455-6677-8899-aabbccddeeff",
        "00112233-4455-6677-8899-aabbccddeefg",
    ] {
        assert_eq!(damaged.parse::<PartitionId>(), Err(PartitionIdError::Malformed));
    }
    assert_eq!(Err(PartitionIdError::Nil), PartitionId::try_from([0u8; 16]));
    let octets = PartitionId::try_from([0xa7u8; 16]).unwrap();
    assert_eq!(octets.to_string(), "a7a7a7a7-a7a7-a7a7-a7a7-a7a7a7a7a7a7");
    assert_eq!(octets.to_string().parse::<PartitionId>(), Ok(octets));
    assert_eq!(octets.as_bytes(), &[0xa7u8; 16]);
}

#[test]
fn nonzero_coordinates_have_checked_successors() {
    assert_eq!(SealGeneration::genesis().get(), 1, "generation one is canonical genesis");
    assert_eq!(
        SealGeneration::genesis().successor().unwrap().get(),
        2,
        "ordinary generations advance by exactly one"
    );
    assert_eq!(
        generation(u64::MAX).successor(),
        Err(CoordinateExhausted),
        "successor arithmetic never wraps into reserved zero"
    );
    assert!(
        BatchId::try_from(0).is_err(),
        "WAL coordinate zero is virtual genesis, not an object coordinate"
    );
    assert_eq!(Err(ZeroCoordinate), SealGeneration::try_from(0));
    assert_eq!(Err(ZeroCoordinate), StreamUid::try_from(0));
    assert_eq!(Err(CoordinateExhausted), BatchId::try_from(u64::MAX).unwrap().successor());
    assert_eq!(10, BatchId::try_from(9).unwrap().successor().unwrap().get());
    assert_eq!("storage coordinate is zero", ZeroCoordinate.to_string());
    assert_eq!("storage coordinate is exhausted", CoordinateExhausted.to_string());
}

#[test]
fn coordinates_are_ordered_by_their_numbers() {
    for (left, right) in [(1, 2), (2, 2), (u64::MAX, 1), (255, 256)] {
        let order = left.cmp(&right);
        assert_eq!(order, generation(left).cmp(&generation(right)));
        assert_eq!(Some(order), generation(left).partial_cmp(&generation(right)));
        assert_eq!(left < right, generation(left) < generation(right));
        let owners = (OwnerToken::from(generation(left)), OwnerToken::from(generation(right)));
        assert_eq!(order, owners.0.cmp(&owners.1));
        assert_eq!(Some(order), owners.0.partial_cmp(&owners.1));
        let batches = (BatchId::try_from(left).unwrap(), BatchId::try_from(right).unwrap());
        assert_eq!(order, batches.0.cmp(&batches.1));
        assert_eq!(Some(order), batches.0.partial_cmp(&batches.1));
        let streams = (StreamUid::try_from(left).unwrap(), StreamUid::try_from(right).unwrap());
        assert_eq!(order, streams.0.cmp(&streams.1));
        assert_eq!(Some(order), streams.0.partial_cmp(&streams.1));
    }
}

#[test]
fn wal_facts_crosses_both_count_boundaries() {
    let uid = StreamUid::try_from(1).unwrap();
    let deleted = || OperationFact::StreamDeleted { path: path("events/abc"), uid };
    let many = |count: usize| (0..count).map(|_| deleted()).collect::<Vec<OperationFact>>();

    assert_eq!(
        BoundedNonEmptyVec::<OperationFact>::try_from(Vec::new()),
        Err(BoundedNonEmptyVecError::Empty),
        "a WAL run cannot represent no mutation"
    );
    assert!(
        BoundedNonEmptyVec::try_from(many(WAL_RUN_FACTS_MAX)).is_ok(),
        "the published fact-count bound itself is accepted"
    );
    assert_eq!(
        BoundedNonEmptyVec::try_from(many(WAL_RUN_FACTS_MAX + 1)),
        Err(BoundedNonEmptyVecError::OverMax { facts_actual: WAL_RUN_FACTS_MAX + 1 }),
        "the first over-bound count is rejected"
    );
}

#[test]
fn durable_key_golden_spellings_select_newest_coordinates_first() {
    let generation_one = SealKey::from(SealIdentity::new(partition(), SealGeneration::genesis()));
    let generation_two = SealKey::from(SealIdentity::new(
        partition(),
        SealGeneration::genesis().successor().unwrap(),
    ));
    assert_eq!(
        generation_one.to_string(),
        "partition/00112233-4455-6677-8899-aabbccddeeff/seal/v1/18446744073709551614",
        "generation one anchors the reverse-coordinate spelling"
    );
    assert_eq!(
        generation_two.to_string(),
        "partition/00112233-4455-6677-8899-aabbccddeeff/seal/v1/18446744073709551613",
        "generation two decrements the storage ordinal"
    );
    assert!(
        generation_two.to_string() < generation_one.to_string(),
        "ascending listing puts the newer generation first"
    );
    assert_eq!(
        generation_one.to_string().parse::<SealKey>(),
        Ok(generation_one),
        "the canonical key parser recovers its typed identity"
    );

    let wal_key = WalKey::from(WalIdentity::new(partition(), BatchId::try_from(42).unwrap()));
    assert_eq!(
        wal_key.to_string(),
        "partition/00112233-4455-6677-8899-aabbccddeeff/wal/v1/18446744073709551573",
        "WAL keys use the independent batch coordinate in the same namespace scheme"
    );
    assert_eq!(wal_key.to_string().parse::<WalKey>(), Ok(wal_key));
}

#[test]
fn malformed_durable_key_spellings_fail_closed() {
    let cases = [
        (
            "partition/00112233-4455-6677-8899-aabbccddeeff/seal/v1/0000000000000000000",
            KeySpellingError::ReverseOrdinal,
        ),
        (
            "partition/00112233-4455-6677-8899-aabbccddeeff/seal/v1/18446744073709551615",
            KeySpellingError::ZeroCoordinate,
        ),
        (
            "partition/00112233-4455-6677-8899-AABBCCDDEEFF/seal/v1/18446744073709551614",
            KeySpellingError::Partition(PartitionIdError::Malformed),
        ),
        (
            "partition/00000000-0000-0000-0000-000000000000/seal/v1/18446744073709551614",
            KeySpellingError::Partition(PartitionIdError::Nil),
        ),
        (
            "partition/00112233-4455-6677-8899-aabbccddeeff/seal/v2/18446744073709551614",
            KeySpellingError::UnsupportedNamespace,
        ),
        (
            "partition/00112233-4455-6677-8899-aabbccddeeff/seal/v1/99999999999999999999",
            KeySpellingError::ReverseOrdinal,
        ),
    ];
    for (raw, expected) in cases {
        assert_eq!(
            raw.parse::<SealKey>(),
            Err(expected),
            "noncanonical durable key must be rejected: {raw}"
        );
    }
}

#[test]
fn table_key_golden_spellings_anchor_every_store() {
    let fresh = FreshIdentity::new(
        generation(2),
        AttemptId::new(SealGeneration::genesis(), 4),
        7,
    )
    .unwrap();
    let cases = [
        (
            StoreKind::Directory,
            "partition/00112233-4455-6677-8899-aabbccddeeff/table/v1/directory/00000000000000000002/00000000000000000001-00000000000000000004/0000000007",
        ),
        (
            StoreKind::Ledger,
            "partition/00112233-4455-6677-8899-aabbccddeeff/table/v1/ledger/00000000000000000002/00000000000000000001-00000000000000000004/0000000007",
        ),
        (
            StoreKind::Tally,
            "partition/00112233-4455-6677-8899-aabbccddeeff/table/v1/tally/00000000000000000002/00000000000000000001-00000000000000000004/0000000007",
        ),
        (
            StoreKind::Annals,
            "partition/00112233-4455-6677-8899-aabbccddeeff/table/v1/annals/00000000000000000002/00000000000000000001-00000000000000000004/0000000007",
        ),
    ];
    for (store, expected) in cases {
        let key = TableKey::new(partition(), TableObjectId::new(fresh, store));
        assert_eq!(key.to_string(), expected, "each store has one lowercase spelling");
        assert_eq!(expected.parse::<TableKey>(), Ok(key), "the golden key roundtrips");
    }
}

#[test]
fn malformed_table_key_spellings_fail_closed() {
    let valid = "partition/00112233-4455-6677-8899-aabbccddeeff/table/v1/directory/00000000000000000002/00000000000000000001-00000000000000000004/0000000007";
    let cases = [
        valid.replace("directory", "Directory"),
        valid.replace("00000000000000000002", "0000000000000000002"),
        valid.replace("00000000000000000004", "+0000000000000000004"),
        valid.replace("0000000007", "00000000007"),
        valid.replace("0000000007", "4294967296"),
        valid.replace("00000000000000000002", "00000000000000000000"),
        format!("{valid}/extra"),
    ];
    for malformed in cases {
        assert!(
            malformed.parse::<TableKey>().is_err(),
            "noncanonical table key must be rejected: {malformed}"
        );
    }
}

#[test]
fn directory_key_order_is_stream_path_byte_order() {
    let raw = ["a", "a-b", "a/b", "a0", "ab", "b", "b/a/c", "z_9"];
    for left in raw {
        for right in raw {
            assert_eq!(path(left).cmp(&path(right)), left.as_bytes().cmp(right.as_bytes()));
            assert_eq!(path(left).is_before(&path(right)), left.as_bytes() < right.as_bytes());
            assert_eq!(path(left).is_same(&path(right)), left == right);
        }
    }
}

#[test]
fn reverse_spelling_inverts_distinct_generation_pairs() {
    let raw = [1u64, 2, 9, 10, 99, 100, 1 << 32, u64::MAX - 1, u64::MAX];
    for left in raw {
        for right in raw {
            let left_key = SealKey::from(SealIdentity::new(partition(), generation(left)));
            let right_key = SealKey::from(SealIdentity::new(partition(), generation(right)));
            assert_eq!(left_key.to_string().cmp(&right_key.to_string()), right.cmp(&left));
        }
    }
}

#[test]
fn namespaces_spell_the_prefix_of_their_keys() {
    let seals = SealNamespace::from(partition());
    assert_eq!(
        "partition/00112233-4455-6677-8899-aabbccddeeff/seal/v1",
        seals.to_string()
    );
    assert_eq!(Ok(seals), seals.to_string().parse::<SealNamespace>());
    let logs = WalNamespace::from(partition());
    assert_eq!("partition/00112233-4455-6677-8899-aabbccddeeff/wal/v1", logs.to_string());
    assert_eq!(Ok(logs), logs.to_string().parse::<WalNamespace>());
    assert!(logs.to_string().parse::<SealNamespace>().is_err());
    let key = WalKey::from(WalIdentity::new(partition(), BatchId::try_from(3).unwrap()));
    assert!(key.to_string().starts_with(&logs.to_string()));
}

#[test]
fn directory_keys_refuse_long_malformed_and_ungrammatical_bytes() {
    assert_eq!(
        Err(DirectoryKeyError::StreamPath),
        DirectoryKey::new(b"events//a".to_vec(), &grammar)
    );
    assert_eq!(
        Err(DirectoryKeyError::InvalidUtf8),
        DirectoryKey::new(vec![b'a', 0xff], &grammar)
    );
    assert_eq!(
        Err(DirectoryKeyError::StreamPath),
        DirectoryKey::new(vec![b'a'; 513], &grammar)
    );
    assert!(DirectoryKey::new(vec![b'a'; 512], &grammar).is_ok());
    let uid = StreamUid::try_from(3).unwrap();
    assert_eq!(uid, DirectoryEntry::Tombstone(uid).uid());
}

#[test]
fn generation_one_is_only_the_canonical_empty_genesis() {
    let generation = SealGeneration::genesis();
    let batch = BatchId::try_from(1).unwrap();
    assert_eq!(
        Err(SealError::NonCanonicalGenesis),
        Seal::new(
            partition(),
            generation,
            WalReplayPoint::Through { batch, owner: OwnerToken::from(generation) },
            TreeVersion::empty(),
            TreeVersion::empty(),
        )
    );

    let generation_two = generation.successor().unwrap();
    assert_eq!(
        Err(SealError::ReplayOwnerNotBeforeSeal),
        Seal::new(
            partition(),
            generation_two,
            WalReplayPoint::Through { batch, owner: OwnerToken::from(generation_two) },
            TreeVersion::empty(),
            TreeVersion::empty(),
        )
    );

    let fresh = FreshIdentity::new(generation_two, AttemptId::new(generation, 1), 0).unwrap();
    let table = TableRef::new(TableObjectId::new(fresh, StoreKind::Directory), 1).unwrap();
    let directory =
        TreeVersion::try_from(vec![SortedRun::try_from(vec![table]).unwrap()]).unwrap();
    assert_eq!(
        Err(SealError::NonCanonicalGenesis),
        Seal::new(
            partition(),
            generation,
            WalReplayPoint::Genesis,
            directory,
            TreeVersion::empty(),
        )
    );
}

#[test]
fn manifests_reject_every_malformed_shape() {
    let object = TableObjectId::new(table(2, StoreKind::Directory, 0).object().fresh(),
        StoreKind::Directory);
    assert!(TableRef::new(object, SST_OBJECT_BYTES_MAX).is_ok());
    assert!(TableRef::new(object, SST_OBJECT_BYTES_MAX + 1).is_err());
    assert!(SortedRun::try_from(Vec::new()).is_err());
    let run = |ordinal: u32| {
        SortedRun::try_from(vec![table(2, StoreKind::Directory, ordinal)]).unwrap()
    };
    let runs = |count: usize| (0..count).map(|at| run(at as u32)).collect::<Vec<SortedRun>>();
    assert!(TreeVersion::try_from(runs(TREE_RUNS_MAX)).is_ok());
    assert!(TreeVersion::try_from(runs(TREE_RUNS_MAX + 1)).is_err());
    let twice = TreeVersion::try_from(vec![run(0), run(0)]).unwrap();
    assert!(Seal::new(
        partition(),
        generation(2),
        WalReplayPoint::Genesis,
        twice,
        TreeVersion::empty()
    )
    .is_err());
    let misplaced = TreeVersion::try_from(vec![run(0)]).unwrap();
    assert!(Seal::new(
        partition(),
        generation(2),
        WalReplayPoint::Genesis,
        TreeVersion::empty(),
        misplaced
    )
    .is_err());
    assert_eq!(
        Err(TableIdentityError),
        FreshIdentity::new(generation(2), AttemptId::new(generation(2), 0), 0)
    );
}

#[test]
fn a_claim_keeps_the_replay_point_and_the_trees() {
    let seal = Seal::new(
        partition(),
        generation(4),
        WalReplayPoint::Through {
            batch: BatchId::try_from(9).unwrap(),
            owner: OwnerToken::from(generation(3)),
        },
        TreeVersion::try_from(vec![SortedRun::try_from(vec![table(
            4,
            StoreKind::Directory,
            0,
        )])
        .unwrap()])
        .unwrap(),
        TreeVersion::empty(),
    )
    .unwrap();
    let claim = seal.claim_successor().unwrap();
    assert_eq!(5, claim.generation().get());
    assert_eq!(seal.replay(), claim.replay());
    assert_eq!(seal.directory(), claim.directory());
    assert_eq!(seal.ledger(), claim.ledger());
    assert_eq!(vec![table(4, StoreKind::Directory, 0)], claim.tables());
}

#[test]
fn encoded_candidates_carry_exactly_their_archives() {
    let genesis = Seal::new(
        partition(),
        SealGeneration::genesis(),
        WalReplayPoint::Genesis,
        TreeVersion::empty(),
        TreeVersion::empty(),
    )
    .unwrap();
    let claim = genesis.claim_successor().unwrap();
    let encoded = EncodedGenesisSeal::new(&genesis).unwrap();
    assert_eq!(encode_seal(&genesis).unwrap(), encoded.bytes().to_vec());
    assert_eq!(Err(SealCandidateError::NotAuthority), EncodedAuthoritySeal::new(&genesis));
    assert_eq!(Err(SealCandidateError::NotGenesis), EncodedGenesisSeal::new(&claim));
    let authority = EncodedAuthoritySeal::new(&claim).unwrap();
    assert_eq!(encode_seal(&claim).unwrap(), authority.bytes().to_vec());
    assert_eq!(&claim, authority.seal());

    let fence = WalObject::new(
        partition(),
        BatchId::try_from(3).unwrap(),
        OwnerToken::from(generation(2)),
        WalBody::Fence,
    );
    let encoded = EncodedWal::new(&fence).unwrap();
    assert_eq!(encode_wal(&fence).unwrap(), encoded.bytes().to_vec());
    assert_eq!((partition(), 3), (encoded.partition(), encoded.batch().get()));
}

#[test]
fn manifest_and_key_failures_spell_their_messages() {
    let seals = [
        (SealError::GenerationExhausted, "Seal generation is exhausted"),
        (
            SealError::NonCanonicalGenesis,
            "generation-one Seal is not the canonical empty genesis",
        ),
        (
            SealError::ReplayOwnerNotBeforeSeal,
            "Seal replay owner is not older than its generation",
        ),
        (SealError::RunsOverMax, "tree has more than 16 runs"),
        (SealError::EmptyRun, "sorted run is empty"),
        (SealError::TablesOverMax, "sorted run has more than 4096 tables"),
        (SealError::ObjectBytesOverMax, "table object exceeds 134217728 bytes"),
        (SealError::StoreMismatch, "table store differs from its owning tree"),
        (
            SealError::FutureTable,
            "table birth generation is newer than its enclosing Seal",
        ),
        (
            SealError::DuplicateTableObject,
            "table object identity occurs more than once in the Seal",
        ),
    ];
    for (error, message) in seals {
        assert_eq!(message, error.to_string());
    }
    let keys = [
        (KeySpellingError::Shape, "durable key has the wrong segment shape"),
        (
            KeySpellingError::UnsupportedNamespace,
            "durable key namespace version is unsupported",
        ),
        (
            KeySpellingError::ReverseOrdinal,
            "durable key reverse ordinal is not a fixed-width 20-digit u64",
        ),
        (KeySpellingError::ZeroCoordinate, "durable key spells reserved coordinate zero"),
        (KeySpellingError::TableStore, "table key store spelling is not canonical"),
        (
            KeySpellingError::TableCoordinate,
            "table key coordinate does not have its canonical fixed-width decimal spelling",
        ),
        (
            KeySpellingError::InvalidTableIdentity,
            "table key fresh identity violates its generation ordering",
        ),
    ];
    for (error, message) in keys {
        assert_eq!(message, error.to_string());
    }
}
