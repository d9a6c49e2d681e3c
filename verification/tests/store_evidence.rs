//! What creates, listings and reads of durable objects come to.

use std::collections::BTreeMap;

use strom_storage::domain::candidate::{
    DecodedTable, EncodedAuthoritySeal, EncodedGenesisSeal, EncodedTable, EncodedWal,
};
use strom_storage::domain::coordinate::{BatchId, OwnerToken, SealGeneration, StreamUid};
use strom_storage::domain::directory::{DirectoryEntry, DirectoryKey};
use strom_storage::domain::ledger::{LedgerCell, StreamRecord};
use strom_storage::domain::partition::PartitionId;
use strom_storage::domain::protocol::{
    ExpiryPolicy, ProtocolField, StreamContentType, StreamLifecycle,
};
use strom_storage::domain::seal::{Seal, SealIdentity, TableRef, TreeVersion, WalReplayPoint};
use strom_storage::domain::seal_codec::{decode_seal_partition, encode_seal};
use strom_storage::domain::spelling::{SealKey, SealNamespace, TableKey, WalKey, WalNamespace};
use strom_storage::domain::sst_directory::encode_directory_sst;
use strom_storage::domain::sst_ledger::encode_ledger_sst;
use strom_storage::domain::table::{AttemptId, FreshIdentity, StoreKind, TableObjectId};
use strom_storage::domain::wal::{
    BoundedNonEmptyVec, OperationFact, WalBody, WalIdentity, WalObject,
};
use strom_storage::engine::store::{
    compare_table, establish_genesis, establish_table, establish_wal, head_partition, newest_seal,
    newest_surviving_wal, publish_authority, read_seal, read_table, read_wal, reconcile_table,
    reconcile_wal, targeted_table_deletes, AuthorizedWalRunDelete, CandidateTableEvidence,
    CreateEvidence, GenesisEstablishment, SealPublication, TableEstablishment, TypedStoreError,
    WalDeleteRefusal, WalEstablishment,
};

fn grammar(_field: ProtocolField<'_>) -> bool {
    true
}

fn partition() -> PartitionId {
    "00112233-4455-6677-8899-aabbccddeeff".parse().unwrap()
}

fn foreign_partition() -> PartitionId {
    "11112222-3333-4444-8888-9999aaaabbbb".parse().unwrap()
}

fn batch(raw: u64) -> BatchId {
    BatchId::try_from(raw).unwrap()
}

fn path(raw: &str) -> DirectoryKey {
    DirectoryKey::new(raw.as_bytes().to_vec(), &grammar).unwrap()
}

fn seal_in(partition: PartitionId, generation: SealGeneration) -> Seal {
    Seal::new(
        partition,
        generation,
        WalReplayPoint::Genesis,
        TreeVersion::empty(),
        TreeVersion::empty(),
    )
    .unwrap()
}

fn seal_at(generation: SealGeneration) -> Seal {
    seal_in(partition(), generation)
}

fn run_at(at: BatchId) -> WalObject {
    let fact = OperationFact::StreamDeleted {
        path: path("events/abc"),
        uid: StreamUid::try_from(1).unwrap(),
    };
    let facts = BoundedNonEmptyVec::try_from(vec![fact]).unwrap();
    WalObject::new(
        partition(),
        at,
        OwnerToken::from(SealGeneration::genesis()),
        WalBody::Run(facts),
    )
}

fn fence_at(at: BatchId) -> WalObject {
    WalObject::new(partition(), at, OwnerToken::from(SealGeneration::genesis()), WalBody::Fence)
}

fn table_key_at(store: StoreKind, ordinal: u32) -> TableKey {
    let owner = SealGeneration::genesis();
    let birth = owner.successor().unwrap();
    let fresh = FreshIdentity::new(birth, AttemptId::new(owner, 7), ordinal).unwrap();
    TableKey::new(partition(), TableObjectId::new(fresh, store))
}

fn table_ref(key: TableKey, bytes: usize) -> TableRef {
    TableRef::new(key.object(), bytes as u64).unwrap()
}

fn directory_rows() -> Vec<(DirectoryKey, DirectoryEntry)> {
    vec![(path("events/a"), DirectoryEntry::Live(StreamUid::try_from(1).unwrap()))]
}

fn candidate_table(marker: u8) -> EncodedTable {
    let rows = [(
        path(&format!("events/{marker}")),
        DirectoryEntry::Live(StreamUid::try_from(1).unwrap()),
    )];
    EncodedTable::encode_directory(table_key_at(StoreKind::Directory, 0), &rows).unwrap()
}

/// Objects by key, with create-if-absent.
#[derive(Default)]
struct Objects {
    held: BTreeMap<String, Vec<u8>>,
}

impl Objects {
    fn create(&mut self, key: String, body: &[u8]) -> CreateEvidence {
        match self.held.get(&key) {
            None => {
                self.held.insert(key, body.to_vec());
                CreateEvidence::Direct
            }
            Some(held) if held == body => CreateEvidence::DurableMatch,
            Some(_) => CreateEvidence::NotOurs,
        }
    }

    fn body(&self, key: &str) -> Option<&[u8]> {
        self.held.get(key).map(|held| held.as_slice())
    }

    fn first_under(&self, prefix: &str) -> Option<&str> {
        self.held.keys().find(|key| key.starts_with(prefix)).map(|key| key.as_str())
    }
}

fn seal_key(identity: SealIdentity) -> String {
    SealKey::from(identity).to_string()
}

fn wal_key(at: BatchId) -> String {
    WalKey::from(WalIdentity::new(partition(), at)).to_string()
}

fn contradiction<Value>(outcome: Result<Value, TypedStoreError>) -> String {
    match outcome {
        Err(TypedStoreError::Contradiction { detail }) => detail,
        Err(other) => panic!("expected a contradiction: {other:?}"),
        Ok(_) => panic!("expected a contradiction"),
    }
}

#[test]
fn genesis_establishment_decides_every_evidence_class() {
    let genesis = seal_at(SealGeneration::genesis());
    let candidate = EncodedGenesisSeal::new(&genesis).unwrap();
    let key = seal_key(genesis.identity());
    let mut objects = Objects::default();
    assert_eq!(
        GenesisEstablishment::Established,
        establish_genesis(objects.create(key.clone(), candidate.bytes()))
    );
    assert_eq!(
        GenesisEstablishment::Established,
        establish_genesis(objects.create(key.clone(), candidate.bytes()))
    );

    let foreign =
        EncodedGenesisSeal::new(&seal_in(foreign_partition(), SealGeneration::genesis())).unwrap();
    let mut occupied = Objects::default();
    occupied.create(key.clone(), foreign.bytes());
    assert_eq!(
        GenesisEstablishment::LostRace,
        establish_genesis(occupied.create(key, candidate.bytes()))
    );
    assert_eq!(
        GenesisEstablishment::Unresolved,
        establish_genesis(CreateEvidence::Unresolved)
    );
}

#[test]
fn authority_publication_requires_direct_authorship() {
    let generation = SealGeneration::genesis().successor().unwrap();
    let seal = seal_at(generation);
    let candidate = EncodedAuthoritySeal::new(&seal).unwrap();
    let key = seal_key(seal.identity());
    let mut objects = Objects::default();
    assert_eq!(
        SealPublication::Authored,
        publish_authority(objects.create(key.clone(), candidate.bytes()))
    );
    assert_eq!(
        SealPublication::NoAuthority,
        publish_authority(objects.create(key.clone(), candidate.bytes()))
    );

    let foreign = EncodedAuthoritySeal::new(&seal_in(foreign_partition(), generation)).unwrap();
    let mut occupied = Objects::default();
    occupied.create(key.clone(), foreign.bytes());
    assert_eq!(
        SealPublication::NoAuthority,
        publish_authority(occupied.create(key, candidate.bytes()))
    );
    assert_eq!(SealPublication::Unresolved, publish_authority(CreateEvidence::Unresolved));
}

#[test]
fn created_seal_reads_back_equal_at_its_exact_identity() {
    let seal = seal_at(SealGeneration::genesis());
    let candidate = EncodedGenesisSeal::new(&seal).unwrap();
    let mut objects = Objects::default();
    assert_eq!(
        CreateEvidence::Direct,
        objects.create(seal_key(seal.identity()), candidate.bytes())
    );
    let observed =
        read_seal(&seal.identity(), objects.body(&seal_key(seal.identity()))).unwrap().unwrap();
    assert_eq!(seal, observed, "read-after-create recovers the Seal");
    assert_eq!(candidate.generation(), observed.generation());
    assert_eq!(Ok(None), read_seal(&seal.identity(), None));
}

#[test]
fn newest_generation_returns_the_greatest_after_creates_in_any_order() {
    let one = SealGeneration::genesis();
    let two = one.successor().unwrap();
    let namespace = SealNamespace::new(partition()).to_string();
    for order in [[one, two], [two, one]] {
        let mut objects = Objects::default();
        assert_eq!(Ok(None), newest_seal(objects.first_under(&namespace)));
        for generation in order {
            let seal = seal_at(generation);
            objects.create(seal_key(seal.identity()), &encode_seal(&seal).unwrap());
        }
        let newest = newest_seal(objects.first_under(&namespace)).unwrap();
        assert_eq!(Some(SealIdentity::new(partition(), two)), newest);
    }
}

#[test]
fn garbage_bytes_at_a_valid_seal_key_are_a_typed_contradiction() {
    let identity = SealIdentity::new(partition(), SealGeneration::genesis());
    let detail = contradiction(read_seal(&identity, Some(b"garbage-seal-body")));
    assert!(
        detail.starts_with(&format!("Seal body at {} failed checked decode", seal_key(identity))),
        "{detail}"
    );
}

#[test]
fn garbage_key_under_the_seal_namespace_prefix_is_a_typed_contradiction_for_newest_generation() {
    let namespace = SealNamespace::new(partition()).to_string();
    let seal = seal_at(SealGeneration::genesis());
    let mut objects = Objects::default();
    objects.create(seal_key(seal.identity()), &encode_seal(&seal).unwrap());
    let garbage = format!("{namespace}/-garbage");
    objects.create(garbage.clone(), b"foreign");
    let detail = contradiction(newest_seal(objects.first_under(&namespace)));
    assert!(
        detail.starts_with(&format!("listed key {garbage} under the Seal namespace")),
        "{detail}"
    );
}

#[test]
fn body_encoded_for_identity_a_planted_at_identity_b_is_a_typed_contradiction_on_read_seal() {
    let a = SealGeneration::genesis();
    let b = a.successor().unwrap();
    let encoded = EncodedGenesisSeal::new(&seal_at(a)).unwrap();
    contradiction(read_seal(&SealIdentity::new(partition(), b), Some(encoded.bytes())));
}

#[test]
fn table_establishment_decides_direct_match_and_foreign_evidence() {
    let candidate = candidate_table(1);
    let foreign = candidate_table(2);
    let key = candidate.key().to_string();
    assert_eq!(key, foreign.key().to_string());
    let mut objects = Objects::default();
    for body in [candidate.bytes(), candidate.bytes()] {
        assert_eq!(
            Some(TableEstablishment::Established),
            establish_table(Ok(objects.create(key.clone(), body)))
        );
    }
    assert_eq!(
        Some(TableEstablishment::Contradiction {
            detail: "foreign bytes occupy a fresh checkpoint table identity".to_string(),
        }),
        establish_table(Ok(objects.create(key, foreign.bytes())))
    );
}

#[test]
fn unresolved_table_establishment_reconciles_match_foreign_and_absence() {
    let candidate = candidate_table(1);
    assert_eq!(None, establish_table(Ok(CreateEvidence::Unresolved)));
    let matching = compare_table(&candidate, Some(candidate.bytes()));
    assert_eq!(CandidateTableEvidence::Match, matching);
    assert_eq!(TableEstablishment::Established, reconcile_table(Ok(matching)));
    let foreign = compare_table(&candidate, Some(&[2]));
    assert_eq!(CandidateTableEvidence::Foreign, foreign);
    assert_eq!(
        TableEstablishment::Contradiction {
            detail: "an unresolved fresh checkpoint table contains foreign bytes".to_string(),
        },
        reconcile_table(Ok(foreign))
    );
    let absent = compare_table(&candidate, None);
    assert_eq!(CandidateTableEvidence::Absent, absent);
    assert_eq!(TableEstablishment::Abandoned, reconcile_table(Ok(absent)));
}

#[test]
fn table_store_failures_map_to_abandon_or_contradiction() {
    let detail = || "said by the store".to_string();
    assert_eq!(
        Some(TableEstablishment::Abandoned),
        establish_table(Err(TypedStoreError::Rejected { detail: detail() }))
    );
    assert_eq!(
        Some(TableEstablishment::Abandoned),
        establish_table(Err(TypedStoreError::Retryable { detail: detail() }))
    );
    assert_eq!(
        Some(TableEstablishment::Contradiction { detail: detail() }),
        establish_table(Err(TypedStoreError::Contradiction { detail: detail() }))
    );
    assert_eq!(
        TableEstablishment::Abandoned,
        reconcile_table(Err(TypedStoreError::Retryable { detail: detail() }))
    );
    assert_eq!(
        TableEstablishment::Abandoned,
        reconcile_table(Err(TypedStoreError::Rejected { detail: detail() }))
    );
    assert_eq!(
        TableEstablishment::Contradiction { detail: detail() },
        reconcile_table(Err(TypedStoreError::Contradiction { detail: detail() }))
    );
}

#[test]
fn exact_length_directory_table_round_trips() {
    let key = table_key_at(StoreKind::Directory, 0);
    let rows = directory_rows();
    let bytes = encode_directory_sst(&key, &rows).unwrap();
    let table = table_ref(key, bytes.len());
    assert_eq!(
        Ok(DecodedTable::Directory(rows)),
        read_table(partition(), &table, Some(&bytes), &grammar)
    );
}

#[test]
fn exact_length_ledger_table_round_trips() {
    let key = table_key_at(StoreKind::Ledger, 0);
    let rows = vec![(
        StreamUid::try_from(1).unwrap(),
        LedgerCell::Value(StreamRecord::new(
            StreamContentType::new("application/octet-stream".to_string(), &grammar).unwrap(),
            ExpiryPolicy::Never,
            StreamLifecycle::Open,
            batch(1),
        )),
    )];
    let bytes = encode_ledger_sst(&key, &rows).unwrap();
    let table = table_ref(key, bytes.len());
    assert_eq!(
        Ok(DecodedTable::Ledger(rows)),
        read_table(partition(), &table, Some(&bytes), &grammar)
    );
}

#[test]
fn wrong_store_wrong_identity_and_garbage_are_contradictions() {
    let directory_key = table_key_at(StoreKind::Directory, 0);
    let ledger_key = table_key_at(StoreKind::Ledger, 1);
    let ledger_rows = vec![(StreamUid::try_from(1).unwrap(), LedgerCell::Delete)];
    let ledger_bytes = encode_ledger_sst(&ledger_key, &ledger_rows).unwrap();
    contradiction(read_table(
        partition(),
        &table_ref(directory_key, ledger_bytes.len()),
        Some(&ledger_bytes),
        &grammar,
    ));

    let encoded_key = table_key_at(StoreKind::Directory, 2);
    let planted_key = table_key_at(StoreKind::Directory, 3);
    let bytes = encode_directory_sst(&encoded_key, &directory_rows()).unwrap();
    contradiction(read_table(
        partition(),
        &table_ref(planted_key, bytes.len()),
        Some(&bytes),
        &grammar,
    ));

    let garbage = vec![0x5a; 64];
    contradiction(read_table(
        partition(),
        &table_ref(table_key_at(StoreKind::Directory, 4), garbage.len()),
        Some(&garbage),
        &grammar,
    ));
}

#[test]
fn absence_and_both_length_disagreements_are_contradictions() {
    let key = table_key_at(StoreKind::Directory, 0);
    let bytes = encode_directory_sst(&key, &directory_rows()).unwrap();
    contradiction(read_table(partition(), &table_ref(key, bytes.len()), None, &grammar));
    for recorded in [bytes.len() + 1, bytes.len() - 1] {
        contradiction(read_table(
            partition(),
            &table_ref(key, recorded),
            Some(&bytes),
            &grammar,
        ));
    }
}

#[test]
fn a_table_of_another_store_has_no_decoder() {
    for store in [StoreKind::Tally, StoreKind::Annals] {
        let table = table_ref(table_key_at(store, 0), 1);
        let detail = contradiction(read_table(partition(), &table, Some(&[0]), &grammar));
        assert!(detail.ends_with("names a store with no resident decoder"), "{detail}");
    }
}

#[test]
fn wal_establishment_decides_direct_match_and_occupied_evidence() {
    let candidate = EncodedWal::new(&run_at(batch(1))).unwrap();
    let foreign = EncodedWal::new(&fence_at(batch(1))).unwrap();
    let mut objects = Objects::default();
    for _ in 0..2 {
        assert_eq!(
            Some(WalEstablishment::Durable),
            establish_wal(objects.create(wal_key(batch(1)), candidate.bytes()))
        );
    }
    assert_eq!(
        Some(WalEstablishment::Occupied),
        establish_wal(objects.create(wal_key(batch(1)), foreign.bytes()))
    );
}

#[test]
fn unresolved_wal_establishment_performs_one_exact_reconciliation() {
    let candidate = EncodedWal::new(&run_at(batch(1))).unwrap();
    let foreign = EncodedWal::new(&fence_at(batch(1))).unwrap();
    let identity = WalIdentity::new(partition(), batch(1));
    assert_eq!(None, establish_wal(CreateEvidence::Unresolved));
    let observe = |bytes: &[u8]| {
        read_wal(&identity, Some((bytes.to_vec(), "etag".to_string())), &grammar).unwrap().unwrap()
    };
    assert_eq!(
        WalEstablishment::Durable,
        reconcile_wal(&candidate, Some(&observe(candidate.bytes())))
    );
    assert_eq!(
        WalEstablishment::Occupied,
        reconcile_wal(&candidate, Some(&observe(foreign.bytes())))
    );
    assert_eq!(WalEstablishment::UnresolvedAbsent, reconcile_wal(&candidate, None));
}

#[test]
fn created_wal_reads_back_equal_with_a_stable_validator() {
    let object = run_at(batch(1));
    let candidate = EncodedWal::new(&object).unwrap();
    let identity = WalIdentity::new(partition(), batch(1));
    let read = || {
        let body = Some((candidate.bytes().to_vec(), "etag-1".to_string()));
        read_wal(&identity, body, &grammar).unwrap().unwrap()
    };
    let first = read();
    assert_eq!(object, first.object, "read-after-create recovers the log object");
    assert_eq!(first.validator, read().validator);
    assert_eq!(
        Ok(AuthorizedWalRunDelete { batch: batch(1), validator: "etag-1".to_string() }),
        first.into_run_delete()
    );
    assert_eq!(object, read().into_object());
    assert_eq!(Ok(None), read_wal(&identity, None, &grammar));
}

#[test]
fn newest_surviving_batch_returns_the_greatest_after_creates_in_any_order() {
    let namespace = WalNamespace::new(partition()).to_string();
    for order in [[1, 2], [2, 1]] {
        let mut objects = Objects::default();
        assert_eq!(Ok(None), newest_surviving_wal(objects.first_under(&namespace)));
        for raw in order {
            let candidate = EncodedWal::new(&run_at(batch(raw))).unwrap();
            objects.create(wal_key(batch(raw)), candidate.bytes());
        }
        assert_eq!(
            Some(WalIdentity::new(partition(), batch(2))),
            newest_surviving_wal(objects.first_under(&namespace)).unwrap()
        );
    }
}

#[test]
fn garbage_bytes_at_a_valid_wal_key_are_a_typed_contradiction() {
    let identity = WalIdentity::new(partition(), batch(1));
    let body = Some((b"garbage-wal-body".to_vec(), "etag".to_string()));
    let detail = contradiction(read_wal(&identity, body, &grammar));
    assert!(
        detail.starts_with(&format!("WAL body at {} failed checked decode", wal_key(batch(1)))),
        "{detail}"
    );
}

#[test]
fn fence_observation_refuses_to_become_a_delete_proof() {
    let object = fence_at(batch(1));
    let candidate = EncodedWal::new(&object).unwrap();
    let identity = WalIdentity::new(partition(), batch(1));
    let body = Some((candidate.bytes().to_vec(), "etag".to_string()));
    let observed = read_wal(&identity, body, &grammar).unwrap().unwrap();
    assert!(observed.object.facts().is_none(), "a fence body holds no facts");
    let refusal = observed.into_run_delete().unwrap_err();
    assert_eq!(WalDeleteRefusal::Fence { batch: batch(1) }, refusal);
    assert_eq!("WAL fence cannot become a delete proof", refusal.to_string());
}

#[test]
fn garbage_key_under_the_wal_namespace_prefix_is_a_typed_contradiction_for_newest_surviving_batch()
{
    let namespace = WalNamespace::new(partition()).to_string();
    let mut objects = Objects::default();
    let candidate = EncodedWal::new(&run_at(batch(1))).unwrap();
    objects.create(wal_key(batch(1)), candidate.bytes());
    let garbage = format!("{namespace}/-garbage");
    objects.create(garbage.clone(), b"foreign");
    let detail = contradiction(newest_surviving_wal(objects.first_under(&namespace)));
    assert!(
        detail.starts_with(&format!("listed key {garbage} under the WAL namespace")),
        "{detail}"
    );
}

#[test]
fn body_encoded_for_identity_a_planted_at_identity_b_is_a_typed_contradiction_on_read_wal() {
    let encoded = EncodedWal::new(&run_at(batch(1))).unwrap();
    let body = Some((encoded.bytes().to_vec(), "etag".to_string()));
    contradiction(read_wal(&WalIdentity::new(partition(), batch(2)), body, &grammar));
}

#[test]
fn an_unchanged_manifest_drops_no_table() {
    let seal = seal_at(SealGeneration::genesis());
    assert!(targeted_table_deletes(&seal, &seal.claim_successor().unwrap()).is_empty());
}

#[test]
fn the_newest_seal_names_the_partition() {
    for partition in [partition(), foreign_partition()] {
        let bytes = encode_seal(&seal_in(partition, SealGeneration::genesis())).unwrap();
        assert_eq!(Ok(partition), decode_seal_partition(&bytes));
        assert_eq!(Ok(partition), head_partition("seal/v1/7", Some(&bytes)));
    }
    let contradiction = |detail: &str| {
        Err(TypedStoreError::Contradiction { detail: detail.to_string() })
    };
    assert_eq!(
        contradiction("listed Seal seal/v1/7 is absent"),
        head_partition("seal/v1/7", None)
    );
    assert_eq!(
        contradiction(
            "Seal body at seal/v1/7 names no partition: archive is structurally malformed"
        ),
        head_partition("seal/v1/7", Some(b"garbage"))
    );
    let mut nil = encode_seal(&seal_in(partition(), SealGeneration::genesis())).unwrap();
    let root = nil.len() - 57;
    nil[root..root + 16].fill(0);
    assert_eq!(
        contradiction(
            "Seal body at seal/v1/7 names no partition: archive violates a domain invariant"
        ),
        head_partition("seal/v1/7", Some(&nil))
    );
}
