//! Whole runs of one partition over an object store held in memory.

use std::cell::RefCell;
use std::collections::BTreeMap;

use strom_storage::domain::bounds::{
    WAL_SUFFIX_CHECKPOINT_SPAN_TRIGGER, WAL_SUFFIX_COORDINATES_MAX_V2,
};
use strom_storage::domain::candidate::{EncodedTable, EncodedWal};
use strom_storage::domain::coordinate::{BatchId, OwnerToken, SealGeneration, StreamUid};
use strom_storage::domain::directory::{DirectoryEntry, DirectoryKey};
use strom_storage::domain::ledger::{LedgerCell, StreamRecord};
use strom_storage::domain::partition::PartitionId;
use strom_storage::domain::protocol::{
    ExpiryPolicy, ProtocolField, StreamContentType, StreamLifecycle,
};
use strom_storage::domain::seal::{
    Seal, SealIdentity, SortedRun, TableRef, TreeVersion, WalReplayPoint,
};
use strom_storage::domain::seal_codec::encode_seal;
use strom_storage::domain::spelling::{SealKey, TableKey, WalKey, WalNamespace};
use strom_storage::domain::sst_directory::encode_directory_sst;
use strom_storage::domain::sst_ledger::encode_ledger_sst;
use strom_storage::domain::table::{AttemptId, FreshIdentity, StoreKind, TableObjectId};
use strom_storage::domain::wal::{WalBody, WalIdentity, WalObject};
use strom_storage::domain::wal_codec::encode_wal;
use strom_storage::engine::admission::{AdmissionRefusal, CreateStream};
use strom_storage::engine::bootstrap::{BootstrapEffect, BootstrapEvent, BootstrapPhase};
use strom_storage::engine::bootstrap_exit::BootstrapExit;
use strom_storage::engine::collection::{Collection, CollectionEvent, CollectionPhase};
use strom_storage::engine::completion::{
    complete_publication, publishable, settle_tables, CheckpointCompletion, Preparation,
    TablesEvent,
};
use strom_storage::engine::prepare::prepare_checkpoint;
use strom_storage::engine::service::{
    close_outcome, stream_outcome, CloseOutcome, PublishedView, StreamError, StreamStatus,
    WriterExit,
};
use strom_storage::engine::store::{
    compare_table, establish_genesis, establish_table, establish_wal, newest_seal,
    newest_surviving_wal, publish_authority, read_seal, read_table, read_wal, reconcile_table,
    reconcile_wal, CreateEvidence, ObservedWal, TableEstablishment, TypedStoreError,
    WalEstablishment,
};
use strom_storage::engine::writer_effects::{settle_checkpoint, settle_wal};
use strom_storage::engine::writer_state::{
    AdmissionDecision, CommandEnvelope, Completion, CreateOutcome, FlightDecision, WriterState,
};

fn grammar(_field: ProtocolField<'_>) -> bool {
    true
}

fn partition() -> PartitionId {
    "00112233-4455-6677-8899-aabbccddeeff".parse().unwrap()
}

fn batch(raw: u64) -> BatchId {
    BatchId::try_from(raw).unwrap()
}

fn generation(raw: u64) -> SealGeneration {
    SealGeneration::try_from(raw).unwrap()
}

fn path(raw: &str) -> DirectoryKey {
    DirectoryKey::new(raw.as_bytes().to_vec(), &grammar).unwrap()
}

fn kind(raw: &str) -> StreamContentType {
    StreamContentType::new(raw.to_string(), &grammar).unwrap()
}

fn octet_stream() -> StreamContentType {
    kind("application/octet-stream")
}

fn seal_key(raw: u64) -> String {
    SealKey::from(SealIdentity::new(partition(), generation(raw))).to_string()
}

fn wal_key(raw: u64) -> String {
    WalKey::from(WalIdentity::new(partition(), batch(raw))).to_string()
}

fn genesis(partition: PartitionId) -> Seal {
    Seal::new(
        partition,
        SealGeneration::genesis(),
        WalReplayPoint::Genesis,
        TreeVersion::empty(),
        TreeVersion::empty(),
    )
    .unwrap()
}

/// What the store does with the next operation on a key.
#[derive(Debug, Clone, Copy, PartialEq, Eq)]
enum Fault {
    CreateFails,
    CreateLosesReply,
    CreateIsRejected,
    ReadFails,
    DeleteFails,
}

/// Objects by key. Every fault strikes once.
#[derive(Default)]
struct Store {
    objects: BTreeMap<String, Vec<u8>>,
    faults: BTreeMap<String, Vec<Fault>>,
    creates: BTreeMap<String, usize>,
    listing_fails: bool,
}

impl Store {
    fn inject(mut self, key: String, fault: Fault) -> Self {
        self.faults.entry(key).or_default().push(fault);
        self
    }

    fn strikes(&mut self, key: &str, fault: Fault) -> bool {
        match self.faults.get_mut(key) {
            Some(faults) => match faults.iter().position(|planned| *planned == fault) {
                Some(at) => {
                    faults.remove(at);
                    true
                }
                None => false,
            },
            None => false,
        }
    }

    fn create(&mut self, key: &str, body: &[u8]) -> Result<CreateEvidence, TypedStoreError> {
        *self.creates.entry(key.to_string()).or_default() += 1;
        if self.strikes(key, Fault::CreateIsRejected) {
            return Err(TypedStoreError::Rejected { detail: "permission denied".to_string() });
        }
        if self.strikes(key, Fault::CreateFails) {
            return Ok(CreateEvidence::Unresolved);
        }
        let lost = self.strikes(key, Fault::CreateLosesReply);
        let evidence = match self.objects.get(key) {
            None => {
                self.objects.insert(key.to_string(), body.to_vec());
                CreateEvidence::Direct
            }
            Some(held) if held == body => CreateEvidence::DurableMatch,
            Some(_) => CreateEvidence::NotOurs,
        };
        Ok(if lost { CreateEvidence::Unresolved } else { evidence })
    }

    fn read(&mut self, key: &str) -> Result<Option<Vec<u8>>, TypedStoreError> {
        if self.strikes(key, Fault::ReadFails) {
            return Err(TypedStoreError::Retryable { detail: "transport".to_string() });
        }
        Ok(self.objects.get(key).cloned())
    }

    fn delete(&mut self, key: &str) -> Result<(), TypedStoreError> {
        if self.strikes(key, Fault::DeleteFails) {
            return Err(TypedStoreError::Retryable { detail: "transport".to_string() });
        }
        self.objects.remove(key);
        Ok(())
    }

    fn newest_seal(&mut self) -> Result<Option<SealIdentity>, TypedStoreError> {
        if self.listing_fails {
            self.listing_fails = false;
            return Err(TypedStoreError::Retryable { detail: "transport".to_string() });
        }
        let listed = self.objects.keys().find(|key| key.starts_with("partition/"));
        newest_seal(listed.map(|key| key.as_str()))
    }

    fn newest_wal(&self, partition: PartitionId) -> Result<Option<BatchId>, TypedStoreError> {
        let namespace = WalNamespace::new(partition).to_string();
        let listed = self.objects.keys().find(|key| key.starts_with(&namespace));
        newest_surviving_wal(listed.map(|key| key.as_str()))
            .map(|newest| newest.map(|identity| identity.batch()))
    }

    fn read_wal(&mut self, identity: WalIdentity) -> Result<Option<ObservedWal>, TypedStoreError> {
        let body = self.read(&WalKey::from(identity).to_string())?;
        read_wal(&identity, body.map(|bytes| (bytes, "etag".to_string())), &grammar)
    }

    fn establish_wal(&mut self, candidate: &EncodedWal)
        -> Result<WalEstablishment, TypedStoreError> {
        let identity = WalIdentity::new(candidate.partition(), candidate.batch());
        let evidence = self.create(&WalKey::from(identity).to_string(), candidate.bytes())?;
        match establish_wal(evidence) {
            Some(settled) => Ok(settled),
            None => Ok(reconcile_wal(candidate, self.read_wal(identity)?.as_ref())),
        }
    }

    fn establish_table(&mut self, candidate: &EncodedTable) -> TableEstablishment {
        let key = candidate.key().to_string();
        match establish_table(self.create(&key, candidate.bytes())) {
            Some(settled) => settled,
            None => {
                let read = self.read(&key);
                reconcile_table(read.map(|body| compare_table(candidate, body.as_deref())))
            }
        }
    }

    fn open(&mut self, minted: PartitionId) -> Result<WriterState, BootstrapExit> {
        let mut found = None;
        let mut phase = BootstrapPhase::start();
        loop {
            let event = match phase.effect() {
                BootstrapEffect::ObserveHead => {
                    let newest = self.newest_seal();
                    if let Ok(Some(identity)) = &newest {
                        found = Some(identity.partition());
                    }
                    BootstrapEvent::HeadObserved(
                        newest.map(|newest| newest.map(|identity| identity.generation())),
                    )
                }
                BootstrapEffect::MintPartition => {
                    found = Some(minted);
                    BootstrapEvent::PartitionMinted(minted)
                }
                BootstrapEffect::EstablishGenesis(candidate) => {
                    let identity = SealIdentity::new(minted, candidate.generation());
                    let created =
                        self.create(&SealKey::from(identity).to_string(), candidate.bytes());
                    BootstrapEvent::GenesisEstablished(created.map(establish_genesis))
                }
                BootstrapEffect::ReadSeal(generation) => {
                    let identity = SealIdentity::new(found.unwrap(), generation);
                    let body = self.read(&SealKey::from(identity).to_string());
                    BootstrapEvent::SealRead(match body {
                        Ok(body) => read_seal(&identity, body.as_deref()),
                        Err(error) => Err(error),
                    })
                }
                BootstrapEffect::PublishAuthority(candidate) => {
                    let key = SealKey::from(candidate.seal().identity()).to_string();
                    let created = self.create(&key, candidate.bytes());
                    BootstrapEvent::ClaimPublished(created.map(publish_authority))
                }
                BootstrapEffect::ReadTable(partition, table) => {
                    let body = self.read(&TableKey::new(partition, table.object()).to_string());
                    BootstrapEvent::TableRead(match body {
                        Ok(body) => read_table(partition, &table, body.as_deref(), &grammar),
                        Err(error) => Err(error),
                    })
                }
                BootstrapEffect::ObserveWalTail(partition) => {
                    BootstrapEvent::WalTailObserved(self.newest_wal(partition))
                }
                BootstrapEffect::ReadWal(partition, at) => {
                    let read = self.read_wal(WalIdentity::new(partition, at));
                    BootstrapEvent::WalRead(
                        read.map(|observed| observed.map(|observed| observed.into_object())),
                    )
                }
                BootstrapEffect::EstablishWal(candidate) => {
                    BootstrapEvent::FenceEstablished(self.establish_wal(candidate))
                }
                BootstrapEffect::Complete => match phase {
                    BootstrapPhase::Ready { state } => return Ok(state),
                    other => panic!("only a ready bootstrap is complete: {other:?}"),
                },
            };
            phase = phase.advance(event)?;
        }
    }
}

/// One writer over the store; it ends with the first exit.
struct Writer {
    state: WriterState,
    view: PublishedView,
    exit: Option<WriterExit>,
}

impl Writer {
    fn open(store: &mut Store) -> Result<Self, BootstrapExit> {
        let state = store.open(partition())?;
        let view = PublishedView::new(
            state.claim.generation(),
            state.seal.replay(),
            state.durable_forest().clone(),
        );
        Ok(Writer { state, view, exit: None })
    }

    fn stream(&self, raw: &str) -> Result<StreamStatus, StreamError> {
        match &self.exit {
            None => Ok(self.view.stream(&path(raw))),
            Some(_) => Err(StreamError::Unavailable),
        }
    }

    /// Runs one command to its reply; none when the writer ended without one.
    fn command(&mut self, store: &mut Store, envelope: CommandEnvelope) -> Option<Completion> {
        match self.state.admit_command(envelope) {
            AdmissionDecision::Settled(completion) => return Some(completion),
            AdmissionDecision::Queued => {}
        }
        match self.state.take_flight() {
            FlightDecision::Run(encoded) => {
                let result = store.establish_wal(&encoded);
                match settle_wal(encoded.batch(), result) {
                    Ok(()) => {
                        let durable = self.state.record_wal_durable(encoded.batch());
                        self.view.forest = durable.forest;
                        durable.replies.last().copied()
                    }
                    Err(exit) => {
                        self.exit = Some(exit);
                        None
                    }
                }
            }
            FlightDecision::Replies(replies) => replies.last().copied(),
            FlightDecision::Idle => None,
        }
    }

    fn create(&mut self, store: &mut Store, raw: &str) -> Result<CreateOutcome, StreamError> {
        let command = CreateStream {
            path: path(raw),
            content_type: octet_stream(),
            expiry: ExpiryPolicy::Never,
            lifecycle: StreamLifecycle::Open,
        };
        let answer = self.command(store, CommandEnvelope::Create { command, reply: 0 });
        stream_outcome(answer.map(|completion| match completion {
            Completion::Create { outcome, reply: _ } => outcome,
            other => panic!("a create is answered as one: {other:?}"),
        }))
    }

    fn delete(&mut self, store: &mut Store, raw: &str) -> Result<(), StreamError> {
        let envelope = CommandEnvelope::Delete { path: path(raw), reply: 0 };
        stream_outcome(self.command(store, envelope).map(|completion| match completion {
            Completion::Delete { outcome, reply: _ } => outcome,
            other => panic!("a delete is answered as one: {other:?}"),
        }))
    }

    fn drive_checkpoint_span(&mut self, store: &mut Store) -> Vec<String> {
        (0..WAL_SUFFIX_CHECKPOINT_SPAN_TRIGGER)
            .map(|ordinal| {
                let raw = format!("checkpoint/{ordinal}");
                assert_eq!(Ok(CreateOutcome::Created), self.create(store, &raw));
                raw
            })
            .collect()
    }

    /// Runs the checkpoint that is due; the returned seals are to be collected.
    fn checkpoint(&mut self, store: &mut Store) -> Option<(Seal, Seal)> {
        let plan = self.state.take_checkpoint()?;
        let tables = RefCell::new(Vec::new());
        let prepared = prepare_checkpoint(plan.input, &|table: EncodedTable| {
            tables.borrow_mut().push(table);
            true
        });
        let mut settled = None;
        for table in tables.into_inner() {
            if settled.is_none() {
                settled = settle_tables(TablesEvent::Settled(store.establish_table(&table)));
            }
        }
        let settled = match settled {
            Some(settled) => settled,
            None => settle_tables(TablesEvent::Drained).unwrap(),
        };
        let completion = match publishable(settled, Preparation::Finished(prepared)) {
            Ok(prepared) => {
                let key = SealKey::from(prepared.encoded_seal.seal().identity()).to_string();
                let published = store.create(&key, prepared.encoded_seal.bytes());
                complete_publication(prepared, published.map(publish_authority))
            }
            Err(completion) => completion,
        };
        match settle_checkpoint(plan.ticket.cut, completion) {
            Ok(Some(install)) => {
                let installed = self.state.install_checkpoint(plan.ticket, install);
                self.view.forest = installed.forest;
                Some((installed.source, installed.successor))
            }
            Ok(None) => {
                self.state.abandon_checkpoint(plan.ticket);
                None
            }
            Err(exit) => {
                self.exit = Some(exit);
                None
            }
        }
    }

    fn shutdown(self) -> CloseOutcome {
        close_outcome(self.exit.unwrap_or(WriterExit::Shutdown))
    }
}

fn collect(store: &mut Store, source: &Seal, successor: &Seal) {
    let mut collection = Collection::new(source, successor);
    loop {
        let event = match &collection.phase {
            CollectionPhase::ReadWal { batch } => CollectionEvent::WalRead(
                store.read_wal(WalIdentity::new(collection.partition, *batch)),
            ),
            CollectionPhase::DeleteRun { run } => {
                let identity = WalIdentity::new(collection.partition, run.batch);
                CollectionEvent::Deleted(store.delete(&WalKey::from(identity).to_string()))
            }
            CollectionPhase::DeleteTable { at } => {
                let key = TableKey::new(collection.partition, collection.tables[*at].object);
                CollectionEvent::Deleted(store.delete(&key.to_string()))
            }
            CollectionPhase::Done => return,
        };
        collection.handle(event);
    }
}

fn live(writer: &Writer, raw: &str) -> bool {
    matches!(writer.stream(raw), Ok(StreamStatus::Live { .. }))
}

fn assert_reopens_with_streams(store: &mut Store, streams: &[String]) {
    let reopened = Writer::open(store).unwrap();
    for raw in streams {
        assert!(live(&reopened, raw), "reopen lost stream {raw}");
    }
    assert_eq!(CloseOutcome::Shutdown, reopened.shutdown());
}

#[test]
fn empty_namespace_creates_genesis_and_reopens() {
    let mut store = Store::default();
    let first = Writer::open(&mut store).unwrap();
    assert_eq!(partition(), first.state.partition());
    assert!(store.objects.contains_key(&seal_key(1)), "genesis");
    assert!(store.objects.contains_key(&seal_key(2)), "claim");
    assert!(store.objects.contains_key(&wal_key(1)), "takeover fence");
    assert!(first.state.is_quiescent());
    assert_eq!(CloseOutcome::Shutdown, first.shutdown());

    let other: PartitionId = "11112222-3333-4444-8888-9999aaaabbbb".parse().unwrap();
    let reopened = store.open(other).unwrap();
    assert_eq!(partition(), reopened.partition(), "a reopen adopts the stored partition");
    assert_eq!(generation(3), reopened.claim.generation());
    assert_eq!(batch(2), reopened.durable_batch);
    assert_eq!(batch(3), reopened.next_batch);
}

#[test]
fn genesis_race_loser_adopts_the_winning_partition() {
    let phase = BootstrapPhase::start();
    let phase = phase.advance(BootstrapEvent::HeadObserved(Ok(None))).unwrap();
    assert_eq!(BootstrapEffect::MintPartition, phase.effect());
    let loser: PartitionId = "11112222-3333-4444-8888-9999aaaabbbb".parse().unwrap();
    let phase = phase.advance(BootstrapEvent::PartitionMinted(loser)).unwrap();
    let lost = establish_genesis(CreateEvidence::NotOurs);
    let phase = phase.advance(BootstrapEvent::GenesisEstablished(Ok(lost))).unwrap();
    assert_eq!(BootstrapEffect::ObserveHead, phase.effect(), "the loser looks again");
    let one = Some(SealGeneration::genesis());
    let phase = phase.advance(BootstrapEvent::HeadObserved(Ok(one))).unwrap();
    let phase = phase.advance(BootstrapEvent::SealRead(Ok(Some(genesis(partition()))))).unwrap();
    match phase {
        BootstrapPhase::PublishClaim { candidate, plan: _ } => {
            assert_eq!(partition(), candidate.seal().partition());
            assert_eq!(generation(2), candidate.generation());
        }
        other => panic!("the winner's genesis is claimed: {other:?}"),
    }
}

#[test]
fn retryable_store_failure_crosses_the_interpreter_seam() {
    let mut store = Store { listing_fails: true, ..Store::default() };
    assert_eq!(
        Err(BootstrapExit::Retryable { detail: "transport".to_string() }),
        store.open(partition())
    );
    assert!(store.open(partition()).is_ok());
}

fn plant_table(store: &mut Store, key: TableKey, bytes: Vec<u8>) -> TableRef {
    let length = bytes.len() as u64;
    store.objects.insert(key.to_string(), bytes);
    TableRef::new(key.object(), length).unwrap()
}

#[test]
fn planted_tables_and_wal_replay_open_the_expected_view() {
    let mut store = Store::default();
    let one = SealGeneration::genesis();
    let two = one.successor().unwrap();
    let uid = StreamUid::try_from(1).unwrap();
    let deleted_uid = StreamUid::try_from(2).unwrap();
    let key = |kind, ordinal| {
        let fresh = FreshIdentity::new(two, AttemptId::new(one, 1), ordinal).unwrap();
        TableKey::new(partition(), TableObjectId::new(fresh, kind))
    };
    let record = |kind: StreamContentType, lifecycle| {
        LedgerCell::Value(StreamRecord::new(kind, ExpiryPolicy::Never, lifecycle, batch(1)))
    };

    let directory_key = key(StoreKind::Directory, 0);
    let directory = encode_directory_sst(
        &directory_key,
        &[
            (path("events/base"), DirectoryEntry::Live(uid)),
            (path("events/deleted"), DirectoryEntry::Tombstone(deleted_uid)),
        ],
    )
    .unwrap();
    let directory = plant_table(&mut store, directory_key, directory);
    let older_key = key(StoreKind::Ledger, 1);
    let older = encode_ledger_sst(
        &older_key,
        &[
            (uid, record(octet_stream(), StreamLifecycle::Open)),
            (deleted_uid, record(octet_stream(), StreamLifecycle::Open)),
        ],
    )
    .unwrap();
    let older = plant_table(&mut store, older_key, older);
    let newer_key = key(StoreKind::Ledger, 2);
    let newer = encode_ledger_sst(
        &newer_key,
        &[
            (uid, record(kind("application/json"), StreamLifecycle::Closed)),
            (deleted_uid, LedgerCell::Delete),
        ],
    )
    .unwrap();
    let newer = plant_table(&mut store, newer_key, newer);

    let run = |table| SortedRun::try_from(vec![table]).unwrap();
    let seal = Seal::new(
        partition(),
        two,
        WalReplayPoint::Through { batch: batch(1), owner: OwnerToken::from(one) },
        TreeVersion::try_from(vec![run(directory)]).unwrap(),
        TreeVersion::try_from(vec![run(newer), run(older)]).unwrap(),
    )
    .unwrap();
    store.objects.insert(seal_key(1), encode_seal(&genesis(partition())).unwrap());
    store.objects.insert(seal_key(2), encode_seal(&seal).unwrap());

    let writer = Writer::open(&mut store).unwrap();
    assert_eq!(
        Ok(StreamStatus::Live {
            content_type: kind("application/json"),
            expiry: ExpiryPolicy::Never,
            lifecycle: StreamLifecycle::Closed,
        }),
        writer.stream("events/base")
    );
    assert_eq!(Ok(StreamStatus::Deleted), writer.stream("events/deleted"));
    assert_eq!(Ok(StreamStatus::Missing), writer.stream("events/other"));
    assert!(store.objects.contains_key(&wal_key(2)), "the fence follows the cut");
}

#[test]
fn a_claim_that_is_taken_fences_the_opener() {
    let mut store = Store::default();
    store.objects.insert(seal_key(1), encode_seal(&genesis(partition())).unwrap());
    let phase = BootstrapPhase::start();
    let one = Some(SealGeneration::genesis());
    let phase = phase.advance(BootstrapEvent::HeadObserved(Ok(one))).unwrap();
    let phase = phase.advance(BootstrapEvent::SealRead(Ok(Some(genesis(partition()))))).unwrap();
    let taken = publish_authority(CreateEvidence::DurableMatch);
    assert_eq!(
        Err(BootstrapExit::Fenced { observed: generation(2) }),
        phase.advance(BootstrapEvent::ClaimPublished(Ok(taken)))
    );
}

#[test]
fn an_unresolved_claim_is_retried() {
    let mut store = Store::default().inject(seal_key(2), Fault::CreateLosesReply);
    match store.open(partition()) {
        Err(BootstrapExit::Retryable { detail }) => {
            assert_eq!("claim create at SealGeneration(2) is unresolved", detail)
        }
        other => panic!("an unresolved claim is retryable: {other:?}"),
    }
    let reopened = store.open(partition()).unwrap();
    assert_eq!(generation(3), reopened.claim.generation());
}

#[test]
fn an_occupied_fence_is_placed_after_its_occupant() {
    let mut store = Store::default();
    store.objects.insert(seal_key(1), encode_seal(&genesis(partition())).unwrap());
    let mut phase = BootstrapPhase::start();
    let one = Some(SealGeneration::genesis());
    phase = phase.advance(BootstrapEvent::HeadObserved(Ok(one))).unwrap();
    phase = phase.advance(BootstrapEvent::SealRead(Ok(Some(genesis(partition()))))).unwrap();
    let authored = publish_authority(CreateEvidence::Direct);
    phase = phase.advance(BootstrapEvent::ClaimPublished(Ok(authored))).unwrap();
    phase = phase.advance(BootstrapEvent::WalTailObserved(Ok(None))).unwrap();
    assert!(matches!(phase.effect(), BootstrapEffect::EstablishWal(fence) if fence.batch() == batch(1)));
    phase =
        phase.advance(BootstrapEvent::FenceEstablished(Ok(WalEstablishment::Occupied))).unwrap();
    assert_eq!(BootstrapEffect::ObserveWalTail(partition()), phase.effect());
    phase = phase.advance(BootstrapEvent::WalTailObserved(Ok(Some(batch(1))))).unwrap();
    assert_eq!(BootstrapEffect::ReadWal(partition(), batch(1)), phase.effect());
    let older = WalObject::new(
        partition(),
        batch(1),
        OwnerToken::from(SealGeneration::genesis()),
        WalBody::Fence,
    );
    phase = phase.advance(BootstrapEvent::WalRead(Ok(Some(older)))).unwrap();
    assert!(matches!(phase.effect(), BootstrapEffect::EstablishWal(fence) if fence.batch() == batch(2)));
}

#[test]
fn direct_wal_create_commits_once_and_survives_reopen() {
    let mut store = Store::default();
    let mut writer = Writer::open(&mut store).unwrap();
    assert_eq!(Ok(CreateOutcome::Created), writer.create(&mut store, "events/direct"));
    assert!(live(&writer, "events/direct"));
    assert_eq!(CloseOutcome::Shutdown, writer.shutdown());
    assert_eq!(1, store.creates[&wal_key(2)]);
    assert_reopens_with_streams(&mut store, &["events/direct".to_string()]);
}

#[test]
fn ambiguous_wal_create_with_matching_bytes_commits_without_resend() {
    let mut store = Store::default().inject(wal_key(2), Fault::CreateLosesReply);
    let mut writer = Writer::open(&mut store).unwrap();
    assert_eq!(Ok(CreateOutcome::Created), writer.create(&mut store, "events/ambiguous"));
    assert!(live(&writer, "events/ambiguous"));
    assert_eq!(CloseOutcome::Shutdown, writer.shutdown());
    assert_eq!(1, store.creates[&wal_key(2)]);
    assert_reopens_with_streams(&mut store, &["events/ambiguous".to_string()]);
}

#[test]
fn ambiguous_wal_create_with_foreign_bytes_fences_without_resend() {
    let mut store = Store::default().inject(wal_key(2), Fault::CreateFails);
    let mut writer = Writer::open(&mut store).unwrap();
    let foreign = WalObject::new(
        partition(),
        batch(2),
        OwnerToken::from(SealGeneration::genesis()),
        WalBody::Fence,
    );
    store.objects.insert(wal_key(2), encode_wal(&foreign).unwrap());
    assert_eq!(
        Err(StreamError::Indeterminate),
        writer.create(&mut store, "events/foreign")
    );
    assert_eq!(Err(StreamError::Unavailable), writer.stream("events/foreign"));
    assert_eq!(CloseOutcome::Fenced, writer.shutdown());
    assert_eq!(1, store.creates[&wal_key(2)]);
    assert!(matches!(store.open(partition()), Err(BootstrapExit::Contradiction { .. })));
}

#[test]
fn ambiguous_wal_create_absent_on_reconciliation_poisoned_without_resend() {
    let mut store = Store::default().inject(wal_key(2), Fault::CreateFails);
    let mut writer = Writer::open(&mut store).unwrap();
    assert_eq!(Err(StreamError::Indeterminate), writer.create(&mut store, "events/absent"));
    assert_eq!(
        CloseOutcome::Poisoned { detail: "WAL create is unresolved".to_string() },
        writer.shutdown()
    );
    assert_eq!(1, store.creates[&wal_key(2)]);
    let reopened = Writer::open(&mut store).unwrap();
    assert_eq!(Ok(StreamStatus::Missing), reopened.stream("events/absent"));
}

#[test]
fn failed_wal_reconciliation_poisoned_without_resend() {
    let mut store = Store::default()
        .inject(wal_key(2), Fault::CreateFails)
        .inject(wal_key(2), Fault::ReadFails);
    let mut writer = Writer::open(&mut store).unwrap();
    assert_eq!(Err(StreamError::Indeterminate), writer.create(&mut store, "events/failed"));
    assert_eq!(CloseOutcome::Poisoned { detail: "transport".to_string() }, writer.shutdown());
    assert_eq!(1, store.creates[&wal_key(2)]);
    let reopened = Writer::open(&mut store).unwrap();
    assert_eq!(Ok(StreamStatus::Missing), reopened.stream("events/failed"));
}

#[test]
fn successor_writer_fences_the_previous_writer_and_preserves_its_own_work() {
    let mut store = Store::default();
    let mut previous = Writer::open(&mut store).unwrap();
    let mut current = Writer::open(&mut store).unwrap();
    assert_eq!(
        Err(StreamError::Indeterminate),
        previous.create(&mut store, "events/previous")
    );
    assert_eq!(Err(StreamError::Unavailable), previous.stream("events/previous"));
    assert_eq!(CloseOutcome::Fenced, previous.shutdown());
    assert_eq!(Ok(CreateOutcome::Created), current.create(&mut store, "events/current"));
    assert!(live(&current, "events/current"));
    assert_eq!(CloseOutcome::Shutdown, current.shutdown());

    let reopened = Writer::open(&mut store).unwrap();
    assert_eq!(Ok(StreamStatus::Missing), reopened.stream("events/previous"));
    assert!(live(&reopened, "events/current"));
}

#[test]
fn engine_duplicate_create_is_idempotent_and_survives_reopen() {
    let mut store = Store::default();
    let mut writer = Writer::open(&mut store).unwrap();
    assert_eq!(Ok(CreateOutcome::Created), writer.create(&mut store, "events/dup"));
    assert_eq!(Ok(CreateOutcome::AlreadyExists), writer.create(&mut store, "events/dup"));
    assert!(store.objects.contains_key(&wal_key(2)));
    assert!(!store.objects.contains_key(&wal_key(3)), "no second coordinate is consumed");
    assert_reopens_with_streams(&mut store, &["events/dup".to_string()]);
}

#[test]
fn engine_typed_refusal_does_not_change_the_published_view() {
    let mut store = Store::default();
    let mut writer = Writer::open(&mut store).unwrap();
    assert_eq!(Err(StreamError::NotLive), writer.delete(&mut store, "events/missing"));
    assert_eq!(Ok(StreamStatus::Missing), writer.stream("events/missing"));
    assert_eq!(CloseOutcome::Shutdown, writer.shutdown());
}

#[test]
fn a_deleted_path_stays_occupied_across_reopen() {
    let mut store = Store::default();
    let mut writer = Writer::open(&mut store).unwrap();
    assert_eq!(Ok(CreateOutcome::Created), writer.create(&mut store, "events/gone"));
    assert_eq!(Ok(()), writer.delete(&mut store, "events/gone"));
    let mut reopened = Writer::open(&mut store).unwrap();
    assert_eq!(Ok(StreamStatus::Deleted), reopened.stream("events/gone"));
    assert_eq!(Err(StreamError::Occupied), reopened.create(&mut store, "events/gone"));
}

#[test]
fn held_checkpoint_cannot_extend_the_bounded_wal_suffix() {
    let mut store = Store::default();
    let mut writer = Writer::open(&mut store).unwrap();
    let accepted = WAL_SUFFIX_COORDINATES_MAX_V2 - 2;
    for ordinal in 0..accepted {
        assert_eq!(
            Ok(CreateOutcome::Created),
            writer.create(&mut store, &format!("events/bounded-{ordinal}"))
        );
    }
    assert_eq!(
        Err(StreamError::Overloaded),
        writer.create(&mut store, "events/bounded-refused")
    );
    assert_eq!(
        Ok(CreateOutcome::AlreadyExists),
        writer.create(&mut store, "events/bounded-0")
    );
    assert_eq!(Ok(StreamStatus::Missing), writer.stream("events/bounded-refused"));
    let (source, successor) = writer.checkpoint(&mut store).unwrap();
    assert_eq!(generation(2), source.generation());
    assert_eq!(generation(3), successor.generation());
    assert_eq!(
        Ok(CreateOutcome::Created),
        writer.create(&mut store, "events/bounded-refused"),
        "the published cut makes room"
    );
    let last = format!("events/bounded-{}", accepted - 1);
    assert_reopens_with_streams(
        &mut store,
        &["events/bounded-0".to_string(), last, "events/bounded-refused".to_string()],
    );
}

#[test]
fn a_published_checkpoint_is_collected_and_reopens() {
    let mut store = Store::default();
    let mut writer = Writer::open(&mut store).unwrap();
    let streams = writer.drive_checkpoint_span(&mut store);
    let (source, successor) = writer.checkpoint(&mut store).unwrap();
    collect(&mut store, &source, &successor);
    assert!(store.objects.contains_key(&wal_key(1)), "the fence is permanent");
    for covered in 2..=WAL_SUFFIX_CHECKPOINT_SPAN_TRIGGER + 1 {
        assert!(!store.objects.contains_key(&wal_key(covered)), "run {covered} is collected");
    }
    assert_reopens_with_streams(&mut store, &streams);
}

#[test]
fn advancing_publication_starts_leak_only_collection_without_poisoning_the_writer() {
    let mut store = Store::default().inject(wal_key(2), Fault::DeleteFails);
    let mut writer = Writer::open(&mut store).unwrap();
    let mut streams = writer.drive_checkpoint_span(&mut store);
    let (source, successor) = writer.checkpoint(&mut store).unwrap();
    collect(&mut store, &source, &successor);
    let after = "checkpoint/after-collection-fault".to_string();
    assert_eq!(Ok(CreateOutcome::Created), writer.create(&mut store, &after));
    streams.push(after);
    assert_eq!(CloseOutcome::Shutdown, writer.shutdown());
    assert!(store.objects.contains_key(&wal_key(2)));
    assert!(store.objects.contains_key(&wal_key(3)), "a failure ends the collection");
    assert_reopens_with_streams(&mut store, &streams);
}

fn checkpoint_table_key(kind: StoreKind, ordinal: u32) -> String {
    let fresh =
        FreshIdentity::new(generation(3), AttemptId::new(generation(2), 0), ordinal).unwrap();
    TableKey::new(partition(), TableObjectId::new(fresh, kind)).to_string()
}

#[test]
fn applied_child_with_a_lost_reply_reconciles_and_publishes() {
    let directory = checkpoint_table_key(StoreKind::Directory, 0);
    let mut store = Store::default().inject(directory.clone(), Fault::CreateLosesReply);
    let mut writer = Writer::open(&mut store).unwrap();
    let streams = writer.drive_checkpoint_span(&mut store);
    assert!(writer.checkpoint(&mut store).is_some());
    assert_eq!(1, store.creates[&directory]);
    assert!(store.objects.contains_key(&seal_key(3)));
    assert_reopens_with_streams(&mut store, &streams);
}

#[test]
fn failed_child_reconciliation_abandons_and_reopens_from_wal() {
    let directory = checkpoint_table_key(StoreKind::Directory, 0);
    let mut store = Store::default()
        .inject(directory.clone(), Fault::CreateFails)
        .inject(directory, Fault::ReadFails);
    let mut writer = Writer::open(&mut store).unwrap();
    let streams = writer.drive_checkpoint_span(&mut store);
    assert!(writer.checkpoint(&mut store).is_none());
    assert_eq!(None, writer.state.active_checkpoint());
    assert!(!store.objects.contains_key(&seal_key(3)), "nothing is published");
    assert_eq!(CloseOutcome::Shutdown, writer.shutdown());
    assert_reopens_with_streams(&mut store, &streams);
}

#[test]
fn a_foreign_child_never_publishes() {
    let directory = checkpoint_table_key(StoreKind::Directory, 0);
    let mut store = Store::default();
    let mut writer = Writer::open(&mut store).unwrap();
    let streams = writer.drive_checkpoint_span(&mut store);
    store.objects.insert(directory, b"foreign".to_vec());
    assert!(writer.checkpoint(&mut store).is_none());
    assert!(!store.objects.contains_key(&seal_key(3)));
    assert_eq!(
        CloseOutcome::Contradiction {
            detail: "foreign bytes occupy a fresh checkpoint table identity".to_string(),
        },
        writer.shutdown()
    );
    assert_reopens_with_streams(&mut store, &streams);
}

#[test]
fn seal_failure_before_apply_poisoned_but_reopens_from_wal() {
    let mut store = Store::default().inject(seal_key(3), Fault::CreateIsRejected);
    let mut writer = Writer::open(&mut store).unwrap();
    let streams = writer.drive_checkpoint_span(&mut store);
    assert!(writer.checkpoint(&mut store).is_none());
    assert_eq!(
        CloseOutcome::Poisoned { detail: "permission denied".to_string() },
        writer.shutdown()
    );
    assert!(!store.objects.contains_key(&seal_key(3)));
    assert_reopens_with_streams(&mut store, &streams);
}

#[test]
fn applied_seal_with_a_lost_reply_poisoned_but_reopens_from_the_checkpoint() {
    let mut store = Store::default().inject(seal_key(3), Fault::CreateLosesReply);
    let mut writer = Writer::open(&mut store).unwrap();
    let streams = writer.drive_checkpoint_span(&mut store);
    assert!(writer.checkpoint(&mut store).is_none());
    assert_eq!(
        CloseOutcome::Poisoned { detail: "advancing Seal create is unresolved".to_string() },
        writer.shutdown()
    );
    assert!(store.objects.contains_key(&seal_key(3)));
    assert_eq!(1, store.creates[&seal_key(3)]);
    assert_reopens_with_streams(&mut store, &streams);
}

#[test]
fn foreign_seal_occupant_fences_and_is_a_contradiction_on_reopen() {
    let mut store = Store::default();
    let mut writer = Writer::open(&mut store).unwrap();
    writer.drive_checkpoint_span(&mut store);
    store.objects.insert(seal_key(3), b"foreign".to_vec());
    assert!(writer.checkpoint(&mut store).is_none());
    assert_eq!(CloseOutcome::Fenced, writer.shutdown());
    assert!(matches!(store.open(partition()), Err(BootstrapExit::Contradiction { .. })));
}

#[test]
fn checkpoint_installs_the_exact_successor_and_fences_on_an_occupied_coordinate() {
    let mut store = Store::default();
    let mut writer = Writer::open(&mut store).unwrap();
    writer.drive_checkpoint_span(&mut store);
    let cut = batch(WAL_SUFFIX_CHECKPOINT_SPAN_TRIGGER + 1);
    let plan = writer.state.take_checkpoint().unwrap();
    assert_eq!(cut, plan.ticket.cut);
    let prepared = prepare_checkpoint(plan.input, &|_table: EncodedTable| true).unwrap().unwrap();
    assert_eq!(
        WalReplayPoint::Through { batch: cut, owner: OwnerToken::from(generation(2)) },
        prepared.successor.replay()
    );
    let key = SealKey::from(prepared.encoded_seal.seal().identity()).to_string();
    let created = store.create(&key, prepared.encoded_seal.bytes()).unwrap();
    assert_eq!(CreateEvidence::Direct, created);
    let again = store.create(&key, prepared.encoded_seal.bytes()).unwrap();
    let occupied = complete_publication(prepared, Ok(publish_authority(again)));
    assert_eq!(CheckpointCompletion::Fenced, occupied);
    assert_eq!(Err(WriterExit::Fenced { batch: cut }), settle_checkpoint(cut, occupied));
}

#[test]
fn a_refused_command_is_told_why() {
    assert_eq!(
        Err(StreamError::Overloaded),
        stream_outcome::<()>(Some(Err(AdmissionRefusal::Overloaded)))
    );
}

#[test]
fn engine_success_is_visible_before_reply_and_survives_reopen() {
    let mut store = Store::default();
    let mut writer = Writer::open(&mut store).unwrap();
    let named = writer.state.partition();
    assert_eq!(Ok(CreateOutcome::Created), writer.create(&mut store, "events/a"));
    assert!(live(&writer, "events/a"));
    assert_eq!(CloseOutcome::Shutdown, writer.shutdown());

    let reopened = Writer::open(&mut store).unwrap();
    assert_eq!(named, reopened.state.partition());
    assert!(live(&reopened, "events/a"));
    assert_eq!(CloseOutcome::Shutdown, reopened.shutdown());
}

#[test]
fn partition_success_is_visible_before_reply_and_survives_reopen() {
    let mut store = Store::default();
    let mut writer = Writer::open(&mut store).unwrap();
    assert_eq!(Ok(CreateOutcome::Created), writer.create(&mut store, "events/a"));
    let entry = Some(DirectoryEntry::Live(StreamUid::try_from(1).unwrap()));
    assert_eq!(entry, writer.view.resolve(&path("events/a")));
    assert_eq!(CloseOutcome::Shutdown, writer.shutdown());
    let reopened = Writer::open(&mut store).unwrap();
    assert_eq!(entry, reopened.view.resolve(&path("events/a")));
    assert!(reopened.view.record(StreamUid::try_from(1).unwrap()).is_some());
    assert_eq!(generation(3), reopened.view.generation());
    assert_eq!(WalReplayPoint::Genesis, reopened.view.replay());
}

#[test]
fn duplicate_create_is_idempotent_and_consumes_no_second_wal_coordinate() {
    let mut store = Store::default();
    let mut writer = Writer::open(&mut store).unwrap();
    assert_eq!(Ok(CreateOutcome::Created), writer.create(&mut store, "events/dup"));
    let after_create = writer.view.resolve(&path("events/dup"));
    assert_eq!(Ok(CreateOutcome::AlreadyExists), writer.create(&mut store, "events/dup"));
    assert_eq!(after_create, writer.view.resolve(&path("events/dup")));
    let first_run = WalIdentity::new(partition(), batch(2));
    assert!(store.read_wal(first_run).unwrap().is_some());
    let second_run = WalIdentity::new(partition(), batch(3));
    assert!(store.read_wal(second_run).unwrap().is_none());
}

#[test]
fn a_new_engine_revokes_the_previous_writer() {
    let mut store = Store::default();
    let mut previous = Writer::open(&mut store).unwrap();
    let current = Writer::open(&mut store).unwrap();
    assert_eq!(Err(StreamError::Indeterminate), previous.create(&mut store, "events/fenced"));
    assert_eq!(Err(StreamError::Unavailable), previous.stream("events/fenced"));
    assert_eq!(CloseOutcome::Fenced, previous.shutdown());
    assert_eq!(CloseOutcome::Shutdown, current.shutdown());
}

#[test]
fn wal_commit_becomes_visible_with_the_success_reply() {
    let mut store = Store::default();
    let mut writer = Writer::open(&mut store).unwrap();
    let command = CreateStream {
        path: path("events/visibility"),
        content_type: octet_stream(),
        expiry: ExpiryPolicy::Never,
        lifecycle: StreamLifecycle::Open,
    };
    let envelope = CommandEnvelope::Create { command, reply: 8 };
    assert_eq!(AdmissionDecision::Queued, writer.state.admit_command(envelope));
    let encoded = match writer.state.take_flight() {
        FlightDecision::Run(encoded) => encoded,
        other => panic!("a queued fact flies: {other:?}"),
    };
    assert_eq!(Ok(WalEstablishment::Durable), store.establish_wal(&encoded));
    assert_eq!(Ok(StreamStatus::Missing), writer.stream("events/visibility"));
    let durable = writer.state.record_wal_durable(encoded.batch());
    assert_eq!(
        vec![Completion::Create { outcome: Ok(CreateOutcome::Created), reply: 8 }],
        durable.replies
    );
    writer.view.forest = durable.forest;
    assert!(live(&writer, "events/visibility"));
}

#[test]
fn children_are_durable_before_the_seal_is_published() {
    let mut store = Store::default();
    let mut writer = Writer::open(&mut store).unwrap();
    let streams = writer.drive_checkpoint_span(&mut store);
    let plan = writer.state.take_checkpoint().unwrap();
    let tables = RefCell::new(Vec::new());
    let prepared = prepare_checkpoint(plan.input, &|table: EncodedTable| {
        tables.borrow_mut().push(table);
        true
    });
    for table in tables.into_inner() {
        assert_eq!(TableEstablishment::Established, store.establish_table(&table));
    }
    let tables = settle_tables(TablesEvent::Drained).unwrap();
    let prepared = publishable(tables, Preparation::Finished(prepared)).unwrap();
    for table in prepared.successor.tables() {
        let key = TableKey::new(partition(), table.object()).to_string();
        assert_eq!(Some(table.object_bytes() as usize), store.objects.get(&key).map(|body| body.len()));
    }
    assert!(!store.objects.contains_key(&seal_key(3)));
    let published = store.create(&seal_key(3), prepared.encoded_seal.bytes());
    let completion = complete_publication(prepared, published.map(publish_authority));
    assert!(matches!(completion, CheckpointCompletion::Installed(_)));
    assert_reopens_with_streams(&mut store, &streams);
}

#[test]
fn matching_seal_occupant_fences_but_is_authoritative_on_reopen() {
    let mut store = Store::default();
    let mut writer = Writer::open(&mut store).unwrap();
    let streams = writer.drive_checkpoint_span(&mut store);
    let plan = writer.state.take_checkpoint().unwrap();
    let tables = RefCell::new(Vec::new());
    let prepared = prepare_checkpoint(plan.input, &|table: EncodedTable| {
        tables.borrow_mut().push(table);
        true
    })
    .unwrap()
    .unwrap();
    for table in tables.into_inner() {
        assert_eq!(TableEstablishment::Established, store.establish_table(&table));
    }
    store.objects.insert(seal_key(3), prepared.encoded_seal.bytes().to_vec());
    let created = store.create(&seal_key(3), prepared.encoded_seal.bytes());
    assert_eq!(Ok(CreateEvidence::DurableMatch), created);
    let completion = complete_publication(prepared, created.map(publish_authority));
    assert_eq!(CheckpointCompletion::Fenced, completion);
    assert_reopens_with_streams(&mut store, &streams);
}

#[test]
fn an_abandoned_checkpoint_is_retried_at_the_next_durable_cut() {
    let directory = checkpoint_table_key(StoreKind::Directory, 0);
    let mut store = Store::default().inject(directory.clone(), Fault::CreateFails);
    let mut writer = Writer::open(&mut store).unwrap();
    let mut streams = writer.drive_checkpoint_span(&mut store);
    assert!(writer.checkpoint(&mut store).is_none());
    assert!(!store.objects.contains_key(&directory));
    assert!(writer.checkpoint(&mut store).is_none(), "the same cut is not tried again");
    let next = "checkpoint/next".to_string();
    assert_eq!(Ok(CreateOutcome::Created), writer.create(&mut store, &next));
    streams.push(next);
    let (_source, successor) = writer.checkpoint(&mut store).unwrap();
    assert_eq!(1, successor.tables()[0].object().fresh().attempt().local_counter());
    assert_reopens_with_streams(&mut store, &streams);
}

#[test]
fn shutdown_cancels_before_publication() {
    assert_eq!(
        Some(TableEstablishment::Abandoned),
        settle_tables(TablesEvent::Cancelled)
    );
    let mut store = Store::default();
    let mut writer = Writer::open(&mut store).unwrap();
    let streams = writer.drive_checkpoint_span(&mut store);
    let plan = writer.state.take_checkpoint().unwrap();
    let prepared = prepare_checkpoint(plan.input, &|_table: EncodedTable| true);
    let tables = settle_tables(TablesEvent::Cancelled).unwrap();
    assert_eq!(
        Err(CheckpointCompletion::Abandoned),
        publishable(tables, Preparation::Finished(prepared)).map(|_prepared| ())
    );
    writer.state.abandon_checkpoint(plan.ticket);
    assert_eq!(None, writer.state.active_checkpoint());
    assert_reopens_with_streams(&mut store, &streams);
}
