//! Checkpoint preparation, completion and collection.

use std::cell::RefCell;
use std::collections::BTreeMap;

use strom_storage::domain::bounds::{
    DIRECTORY_ROW_ENCODED_BYTES_MAX, PARTITION_BOOTSTRAP_OBJECTS_MAX_V2,
    SST_ARCHIVE_FIXED_BYTES_MAX, SST_OBJECT_BYTES_MAX, SST_TABLE_TARGET_BYTES, TREE_RUNS_MAX,
};
use strom_storage::domain::candidate::{DecodedTable, EncodedTable};
use strom_storage::domain::coordinate::{BatchId, OwnerToken, SealGeneration, StreamUid};
use strom_storage::domain::directory::{DirectoryEntry, DirectoryKey};
use strom_storage::domain::ledger::{LedgerCell, StreamRecord};
use strom_storage::domain::partition::PartitionId;
use strom_storage::domain::protocol::{
    ExpiryPolicy, ProtocolField, StreamContentType, StreamLifecycle,
};
use strom_storage::domain::seal::{Seal, SortedRun, TableRef, TreeVersion, WalReplayPoint};
use strom_storage::domain::seal_codec::encode_seal;
use strom_storage::domain::spelling::TableKey;
use strom_storage::domain::sst_directory::decode_directory_sst;
use strom_storage::domain::sst_ledger::decode_ledger_sst;
use strom_storage::domain::table::{AttemptId, FreshIdentity, StoreKind, TableObjectId};
use strom_storage::domain::wal::{
    BoundedNonEmptyVec, OperationFact, WalBody, WalIdentity, WalObject,
};
use strom_storage::domain::wal_codec::encode_wal;
use strom_storage::engine::base_load::{plan_bootstrap_sources, BaseLoad};
use strom_storage::engine::checkpoint::CheckpointInput;
use strom_storage::engine::chunks::{account_rows, plan_chunks, Chunk, ChunkAccounting};
use strom_storage::engine::collection::{
    plan_wal_collection, Collection, CollectionEvent, CollectionPhase,
};
use strom_storage::engine::completion::{
    complete_publication, publishable, settle_tables, CheckpointCompletion, Preparation,
    TablesEvent,
};
use strom_storage::engine::forest::{Applied, Forest};
use strom_storage::engine::prepare::{
    ledger_row_bytes, prepare_checkpoint, select_delta, CheckpointContradiction,
    PreparedCheckpoint,
};
use strom_storage::engine::store::{
    read_table, read_wal, AuthorizedTableDelete, SealPublication, TableEstablishment,
    TypedStoreError,
};

fn grammar(_field: ProtocolField<'_>) -> bool {
    true
}

fn partition() -> PartitionId {
    "00112233-4455-6677-8899-aabbccddeeff".parse().unwrap()
}

fn generation(raw: u64) -> SealGeneration {
    SealGeneration::try_from(raw).unwrap()
}

fn batch(raw: u64) -> BatchId {
    BatchId::try_from(raw).unwrap()
}

fn uid(raw: u64) -> StreamUid {
    StreamUid::try_from(raw).unwrap()
}

fn path(raw: &str) -> DirectoryKey {
    DirectoryKey::new(raw.as_bytes().to_vec(), &grammar).unwrap()
}

fn octet_stream() -> StreamContentType {
    StreamContentType::new("application/octet-stream".to_string(), &grammar).unwrap()
}

fn created(raw: &str, number: u64) -> OperationFact {
    OperationFact::StreamCreated {
        path: path(raw),
        uid: uid(number),
        content_type: octet_stream(),
        expiry: ExpiryPolicy::Never,
        lifecycle: StreamLifecycle::Open,
    }
}

fn table(birth: u64, claim: u64, counter: u64, store: StoreKind, ordinal: u32, bytes: u64)
    -> TableRef {
    let fresh = FreshIdentity::new(
        generation(birth),
        AttemptId::new(generation(claim), counter),
        ordinal,
    )
    .unwrap();
    TableRef::new(TableObjectId::new(fresh, store), bytes).unwrap()
}

fn tree(runs: Vec<Vec<TableRef>>) -> TreeVersion {
    let runs: Vec<SortedRun> =
        runs.into_iter().map(|tables| SortedRun::try_from(tables).unwrap()).collect();
    TreeVersion::try_from(runs).unwrap()
}

fn through(cut: u64, owner: u64) -> WalReplayPoint {
    WalReplayPoint::Through { batch: batch(cut), owner: OwnerToken::from(generation(owner)) }
}

fn source_for_base(base: &Forest) -> Seal {
    let cells = base.checkpoint_cells();
    let directory = if cells.directory.is_empty() {
        TreeVersion::empty()
    } else {
        tree(vec![vec![table(2, 1, 0, StoreKind::Directory, 0, 1)]])
    };
    let ledger = if cells.ledger.is_empty() {
        TreeVersion::empty()
    } else {
        tree(vec![vec![table(2, 1, 0, StoreKind::Ledger, 1, 1)]])
    };
    Seal::new(partition(), generation(2), WalReplayPoint::Genesis, directory, ledger).unwrap()
}

fn prepare(input: CheckpointInput) -> (PreparedCheckpoint, Vec<EncodedTable>) {
    let tables = RefCell::new(Vec::new());
    let prepared = prepare_checkpoint(input, &|table: EncodedTable| {
        tables.borrow_mut().push(table);
        true
    });
    (prepared.unwrap().unwrap(), tables.into_inner())
}

type Cells = (BTreeMap<Vec<u8>, DirectoryEntry>, BTreeMap<u64, StreamRecord>);

fn evaluated_cells(forest: &Forest) -> Cells {
    let cells = forest.checkpoint_cells();
    let directory =
        cells.directory.iter().map(|(path, entry)| (path.as_bytes().to_vec(), *entry)).collect();
    let ledger = cells
        .ledger
        .into_iter()
        .map(|(uid, cell)| match cell {
            LedgerCell::Value(record) => {
                assert_eq!(Some(&record), forest.record(uid));
                (uid.get(), record)
            }
            LedgerCell::Delete => panic!("a resident forest has no Ledger delete cells"),
        })
        .collect();
    (directory, ledger)
}

/// The rows of the source's tables are the base; the fresh tables are laid over them.
fn evaluate_successor(
    source: &Seal,
    prepared: &PreparedCheckpoint,
    base: &Forest,
    tables: &[EncodedTable],
) -> Cells {
    let successor = &prepared.successor;
    let (mut directory, mut ledger) = evaluated_cells(base);
    let carries = |old: &TreeVersion, new: &TreeVersion| {
        !old.runs().is_empty() && new.runs().ends_with(old.runs())
    };
    if !carries(source.directory(), successor.directory()) {
        directory.clear();
    }
    if !carries(source.ledger(), successor.ledger()) {
        ledger.clear();
    }
    for table in tables {
        assert!(successor.tables().contains(&table.table()));
        let key = TableKey::new(partition(), table.table().object());
        assert_eq!(key, table.key());
        match key.object().store() {
            StoreKind::Directory => {
                for (path, entry) in decode_directory_sst(&key, table.bytes(), &grammar).unwrap() {
                    directory.insert(path.as_bytes().to_vec(), entry);
                }
            }
            _ => {
                for (uid, cell) in decode_ledger_sst(&key, table.bytes(), &grammar).unwrap() {
                    match cell {
                        LedgerCell::Value(record) => ledger.insert(uid.get(), record),
                        LedgerCell::Delete => ledger.remove(&uid.get()),
                    };
                }
            }
        }
    }
    (directory, ledger)
}

fn apply(forest: &mut Forest, actions: &[u8], batch_number: &mut u64) {
    for (index, action) in actions.iter().enumerate() {
        let live = |open_only: bool| {
            forest.checkpoint_cells().directory.into_iter().find_map(|(path, entry)| match entry {
                DirectoryEntry::Live(uid) => {
                    let open = forest.record(uid).unwrap().lifecycle() == StreamLifecycle::Open;
                    if open || !open_only {
                        Some((path, uid))
                    } else {
                        None
                    }
                }
                DirectoryEntry::Tombstone(_) => None,
            })
        };
        let fresh = created(
            &format!("events/generated-{batch_number}-{index}"),
            forest.path_count() + 1,
        );
        let fact = match action % 3 {
            0 => fresh,
            1 => match live(true) {
                Some((path, uid)) => OperationFact::StreamClosed { path, uid },
                None => fresh,
            },
            _ => match live(false) {
                Some((path, uid)) => OperationFact::StreamDeleted { path, uid },
                None => fresh,
            },
        };
        assert_eq!(Ok(Applied), forest.strict_fold(batch(*batch_number), &fact));
        *batch_number += 1;
    }
}

#[test]
fn production_checkpoint_materializes_generated_snapshots() {
    let mut seed = 0x9e37_79b9_7f4a_7c15u64;
    for round in 0..40usize {
        let mut actions = Vec::new();
        for _ in 0..(round * 2 + 1) {
            seed = seed.wrapping_mul(6_364_136_223_846_793_005).wrapping_add(1_442_695_040_888_963_407);
            actions.push((seed >> 56) as u8);
        }
        let split = (seed >> 20) as usize % actions.len();
        let mut number = 1u64;
        let mut base = Forest::empty();
        apply(&mut base, &actions[..split], &mut number);
        let mut snapshot = base.clone();
        apply(&mut snapshot, &actions[split..], &mut number);
        let source = source_for_base(&base);
        let (prepared, tables) = prepare(CheckpointInput {
            source: source.clone(),
            base: base.clone(),
            snapshot: snapshot.clone(),
            cut: batch(number - 1),
            attempt: AttemptId::new(SealGeneration::genesis(), 0),
        });
        assert_eq!(
            evaluated_cells(&snapshot),
            evaluate_successor(&source, &prepared, &base, &tables)
        );
        assert_eq!(source.generation().get() + 1, prepared.successor.generation().get());
        assert_eq!(through(number - 1, 1), prepared.successor.replay());
        assert_eq!(&prepared.successor, prepared.encoded_seal.seal());
        assert_eq!(
            encode_seal(&prepared.successor).unwrap(),
            prepared.encoded_seal.bytes().to_vec()
        );
    }
}

#[test]
fn create_then_delete_emits_a_directory_tombstone_and_no_ledger_row() {
    let mut snapshot = Forest::empty();
    snapshot.strict_fold(batch(1), &created("events/a", 1)).unwrap();
    let delete = OperationFact::StreamDeleted { path: path("events/a"), uid: uid(1) };
    snapshot.strict_fold(batch(2), &delete).unwrap();

    let base = Forest::empty();
    let source = source_for_base(&base);
    let (prepared, tables) = prepare(CheckpointInput {
        source: source.clone(),
        base: base.clone(),
        snapshot: snapshot.clone(),
        cut: batch(2),
        attempt: AttemptId::new(SealGeneration::genesis(), 0),
    });
    assert_eq!(
        evaluated_cells(&snapshot),
        evaluate_successor(&source, &prepared, &base, &tables)
    );
    assert_eq!(1, tables.len());
    let rows = decode_directory_sst(&tables[0].key(), tables[0].bytes(), &grammar);
    assert_eq!(Ok(vec![(path("events/a"), DirectoryEntry::Tombstone(uid(1)))]), rows);
    assert!(prepared.successor.ledger().is_empty());
}

#[test]
fn one_run_beyond_the_tree_bound_rewrites_every_nonempty_tree() {
    let runs = (0..TREE_RUNS_MAX as u32)
        .map(|ordinal| vec![table(3, 2, 7, StoreKind::Directory, ordinal, 1)])
        .collect();
    let source =
        Seal::new(partition(), generation(3), through(1, 2), tree(runs), TreeVersion::empty())
            .unwrap();
    let mut snapshot = Forest::empty();
    snapshot.strict_fold(batch(2), &created("events/a", 1)).unwrap();
    let (prepared, _tables) = prepare(CheckpointInput {
        source,
        base: Forest::empty(),
        snapshot,
        cut: batch(2),
        attempt: AttemptId::new(generation(2), 8),
    });
    let successor = prepared.successor;
    assert_eq!(1, successor.directory().runs().len());
    assert_eq!(1, successor.ledger().runs().len());
    assert!(
        successor
            .tables()
            .iter()
            .all(|table| table.object().fresh().birth_generation() == successor.generation()),
        "global fallback carries no source table"
    );
}

fn seal_with_directory_tables(lengths: Vec<u64>) -> Seal {
    let tables = lengths
        .into_iter()
        .enumerate()
        .map(|(ordinal, bytes)| table(2, 1, 90, StoreKind::Directory, ordinal as u32, bytes))
        .collect();
    Seal::new(partition(), generation(2), through(1, 1), tree(vec![tables]), TreeVersion::empty())
        .unwrap()
}

#[test]
fn delta_legality_is_inclusive_at_every_aggregate_bound() {
    let directory = account_rows(&vec![DIRECTORY_ROW_ENCODED_BYTES_MAX]);
    let ledger = ChunkAccounting { tables: 0, bytes: 0 };

    let object_at_bound =
        seal_with_directory_tables(vec![1; PARTITION_BOOTSTRAP_OBJECTS_MAX_V2 - 1]);
    assert!(select_delta(&object_at_bound, directory, ledger));
    let object_over = seal_with_directory_tables(vec![1; PARTITION_BOOTSTRAP_OBJECTS_MAX_V2]);
    assert!(!select_delta(&object_over, directory, ledger));

    let fresh_bytes = SST_ARCHIVE_FIXED_BYTES_MAX + DIRECTORY_ROW_ENCODED_BYTES_MAX;
    let last_at_bound = SST_OBJECT_BYTES_MAX - fresh_bytes;
    let mut byte_lengths = vec![SST_OBJECT_BYTES_MAX; 255];
    byte_lengths.push(last_at_bound);
    let bytes_at_bound = seal_with_directory_tables(byte_lengths.clone());
    assert!(select_delta(&bytes_at_bound, directory, ledger));
    byte_lengths[255] = last_at_bound + 1;
    let bytes_over = seal_with_directory_tables(byte_lengths);
    assert!(!select_delta(&bytes_over, directory, ledger));
}

#[test]
fn chunks_fill_up_to_the_target_and_no_further() {
    assert_eq!(Vec::<Chunk>::new(), plan_chunks(&Vec::new()));
    let half = (SST_TABLE_TARGET_BYTES - SST_ARCHIVE_FIXED_BYTES_MAX) / 2;
    assert_eq!(
        vec![Chunk { end: 2, bytes: SST_TABLE_TARGET_BYTES }],
        plan_chunks(&vec![half, half])
    );
    assert_eq!(
        vec![
            Chunk { end: 2, bytes: SST_TABLE_TARGET_BYTES },
            Chunk { end: 3, bytes: SST_ARCHIVE_FIXED_BYTES_MAX + 1 },
        ],
        plan_chunks(&vec![half, half, 1])
    );
    assert_eq!(
        vec![
            Chunk { end: 1, bytes: SST_ARCHIVE_FIXED_BYTES_MAX + half },
            Chunk { end: 2, bytes: SST_ARCHIVE_FIXED_BYTES_MAX + half + 1 },
        ],
        plan_chunks(&vec![half, half + 1])
    );
    assert_eq!(
        ChunkAccounting { tables: 2, bytes: SST_TABLE_TARGET_BYTES + 257 },
        account_rows(&vec![half, half, 1])
    );
    let record = StreamRecord::new(
        octet_stream(),
        ExpiryPolicy::Never,
        StreamLifecycle::Open,
        batch(1),
    );
    assert_eq!(2_048, ledger_row_bytes(&LedgerCell::Value(record)));
    assert_eq!(64, ledger_row_bytes(&LedgerCell::Delete));
}

#[test]
fn a_full_rewrite_of_many_rows_is_cut_into_several_tables() {
    let mut snapshot = Forest::empty();
    let rows = 70_000u64;
    for number in 1..=rows {
        let fact = created(&format!("events/{number:08}"), number);
        snapshot.strict_fold(batch(1), &fact).unwrap();
    }
    let source = source_for_base(&Forest::empty());
    let (prepared, tables) = prepare(CheckpointInput {
        source: source.clone(),
        base: Forest::empty(),
        snapshot: snapshot.clone(),
        cut: batch(1),
        attempt: AttemptId::new(SealGeneration::genesis(), 0),
    });
    let stores: Vec<StoreKind> =
        tables.iter().map(|table| table.table().object().store()).collect();
    assert_eq!(
        vec![
            StoreKind::Directory,
            StoreKind::Directory,
            StoreKind::Ledger,
            StoreKind::Ledger,
            StoreKind::Ledger
        ],
        stores,
        "65535 worst-case Directory rows and 32767 Ledger rows fill a table"
    );
    let ordinals: Vec<u32> =
        tables.iter().map(|table| table.table().object().fresh().ordinal()).collect();
    assert_eq!(vec![0, 1, 2, 3, 4], ordinals);

    let mut load = BaseLoad::new(plan_bootstrap_sources(&prepared.successor).unwrap());
    while let Some(next) = load.next_table() {
        let held = tables.iter().find(|table| table.table() == next).unwrap();
        let rows = read_table(partition(), &next, Some(held.bytes()), &grammar).unwrap();
        load.merge(&rows).unwrap();
    }
    assert_eq!(Ok(snapshot), load.finish());
}

#[test]
fn reopening_loads_a_delta_over_its_base() {
    let mut base = Forest::empty();
    for (number, raw) in [(1, "events/a"), (2, "events/b"), (3, "events/c")] {
        base.strict_fold(batch(1), &created(raw, number)).unwrap();
    }
    let (first, first_tables) = prepare(CheckpointInput {
        source: source_for_base(&Forest::empty()),
        base: Forest::empty(),
        snapshot: base.clone(),
        cut: batch(1),
        attempt: AttemptId::new(SealGeneration::genesis(), 0),
    });
    let mut snapshot = base.clone();
    let close = OperationFact::StreamClosed { path: path("events/a"), uid: uid(1) };
    let delete = OperationFact::StreamDeleted { path: path("events/b"), uid: uid(2) };
    snapshot.strict_fold(batch(2), &close).unwrap();
    snapshot.strict_fold(batch(2), &delete).unwrap();
    snapshot.strict_fold(batch(2), &created("events/aa", 4)).unwrap();
    let delta = snapshot.delta_since(&base);
    assert_eq!(
        vec![
            (path("events/aa"), DirectoryEntry::Live(uid(4))),
            (path("events/b"), DirectoryEntry::Tombstone(uid(2)))
        ],
        delta.directory
    );
    assert_eq!(
        vec![uid(1), uid(2), uid(4)],
        delta.ledger.iter().map(|(uid, _cell)| *uid).collect::<Vec<StreamUid>>()
    );
    assert_eq!(LedgerCell::Delete, delta.ledger[1].1);
    let unchanged = base.delta_since(&base);
    assert!(unchanged.directory.is_empty() && unchanged.ledger.is_empty());

    let (second, second_tables) = prepare(CheckpointInput {
        source: first.successor.clone(),
        base,
        snapshot: snapshot.clone(),
        cut: batch(2),
        attempt: AttemptId::new(SealGeneration::genesis(), 1),
    });
    assert_eq!(2, second.successor.directory().runs().len());
    assert!(second.successor.directory().runs().ends_with(first.successor.directory().runs()));
    let mut load = BaseLoad::new(plan_bootstrap_sources(&second.successor).unwrap());
    while let Some(next) = load.next_table() {
        let held = first_tables
            .iter()
            .chain(second_tables.iter())
            .find(|table| table.table() == next)
            .unwrap();
        let rows = read_table(partition(), &next, Some(held.bytes()), &grammar).unwrap();
        assert_eq!(
            next.object().store() == StoreKind::Directory,
            matches!(rows, DecodedTable::Directory(_))
        );
        load.merge(&rows).unwrap();
    }
    assert_eq!(Ok(snapshot), load.finish());
}

#[test]
fn a_refused_table_ends_the_preparation() {
    let mut snapshot = Forest::empty();
    snapshot.strict_fold(batch(1), &created("events/a", 1)).unwrap();
    for accepted in 0..2usize {
        let offered = RefCell::new(0usize);
        let prepared = prepare_checkpoint(
            CheckpointInput {
                source: source_for_base(&Forest::empty()),
                base: Forest::empty(),
                snapshot: snapshot.clone(),
                cut: batch(1),
                attempt: AttemptId::new(SealGeneration::genesis(), 0),
            },
            &|_table: EncodedTable| {
                let before = *offered.borrow();
                *offered.borrow_mut() += 1;
                before < accepted
            },
        );
        assert_eq!(Ok(None), prepared);
        assert_eq!(accepted + 1, offered.into_inner(), "nothing follows the refused table");
    }
}

#[test]
fn an_exhausted_generation_cannot_be_checkpointed() {
    let source = Seal::new(
        partition(),
        generation(u64::MAX),
        WalReplayPoint::Genesis,
        TreeVersion::empty(),
        TreeVersion::empty(),
    )
    .unwrap();
    let prepared = prepare_checkpoint(
        CheckpointInput {
            source,
            base: Forest::empty(),
            snapshot: Forest::empty(),
            cut: batch(1),
            attempt: AttemptId::new(SealGeneration::genesis(), 0),
        },
        &|_table: EncodedTable| true,
    );
    let Err(error) = prepared else {
        panic!("the last generation has no successor");
    };
    assert_eq!("storage coordinate is exhausted", error.to_string());
}

fn empty_checkpoint() -> PreparedCheckpoint {
    prepare(CheckpointInput {
        source: source_for_base(&Forest::empty()),
        base: Forest::empty(),
        snapshot: Forest::empty(),
        cut: batch(9),
        attempt: AttemptId::new(SealGeneration::genesis(), 0),
    })
    .0
}

#[test]
fn checkpoint_maps_table_abandonment_and_contradiction_before_publication() {
    assert_eq!(None, settle_tables(TablesEvent::Settled(TableEstablishment::Established)));
    assert_eq!(
        Some(TableEstablishment::Abandoned),
        settle_tables(TablesEvent::Settled(TableEstablishment::Abandoned))
    );
    assert_eq!(Some(TableEstablishment::Abandoned), settle_tables(TablesEvent::Cancelled));
    assert_eq!(Some(TableEstablishment::Established), settle_tables(TablesEvent::Drained));
    let foreign = || TableEstablishment::Contradiction { detail: "foreign table".to_string() };
    assert_eq!(Some(foreign()), settle_tables(TablesEvent::Settled(foreign())));

    let finished = || Preparation::Finished(Ok(Some(empty_checkpoint())));
    assert_eq!(
        Ok(empty_checkpoint()),
        publishable(TableEstablishment::Established, finished())
    );
    assert_eq!(
        Err(CheckpointCompletion::Abandoned),
        publishable(TableEstablishment::Abandoned, finished())
    );
    assert_eq!(
        Err(CheckpointCompletion::Contradiction { detail: "foreign table".to_string() }),
        publishable(foreign(), finished())
    );
    assert_eq!(
        Err(CheckpointCompletion::Abandoned),
        publishable(TableEstablishment::Established, Preparation::Finished(Ok(None)))
    );
    assert_eq!(
        Err(CheckpointCompletion::Contradiction {
            detail: "checkpoint preparation ended without a result".to_string()
        }),
        publishable(TableEstablishment::Established, Preparation::Lost)
    );
    assert_eq!(
        Err(CheckpointCompletion::Contradiction {
            detail: "checkpoint preparation task failed: panicked".to_string()
        }),
        publishable(
            TableEstablishment::Abandoned,
            Preparation::Failed { cause: "panicked".to_string() }
        )
    );
    let exhausted = CheckpointContradiction { detail: "exhausted".to_string() };
    assert_eq!(
        Err(CheckpointCompletion::Contradiction { detail: "exhausted".to_string() }),
        publishable(TableEstablishment::Established, Preparation::Finished(Err(exhausted)))
    );
}

#[test]
fn checkpoint_completion_preserves_abandon_poison_and_contradiction_classes() {
    let cancelled = settle_tables(TablesEvent::Cancelled).unwrap();
    assert_eq!(
        Err(CheckpointCompletion::Abandoned),
        publishable(cancelled, Preparation::Finished(Ok(Some(empty_checkpoint()))))
    );
    let CheckpointCompletion::Installed(install) =
        complete_publication(empty_checkpoint(), Ok(SealPublication::Authored))
    else {
        panic!("direct authorship installs the checkpoint");
    };
    assert_eq!(empty_checkpoint().successor, install.successor);
    assert_eq!(empty_checkpoint().source, install.source);
    assert_eq!(Forest::empty(), install.snapshot);
    assert_eq!(
        CheckpointCompletion::Fenced,
        complete_publication(empty_checkpoint(), Ok(SealPublication::NoAuthority))
    );
    assert_eq!(
        CheckpointCompletion::Poisoned {
            detail: "advancing Seal create is unresolved".to_string()
        },
        complete_publication(empty_checkpoint(), Ok(SealPublication::Unresolved))
    );
    let detail = || "backend".to_string();
    assert_eq!(
        CheckpointCompletion::Poisoned { detail: detail() },
        complete_publication(
            empty_checkpoint(),
            Err(TypedStoreError::Retryable { detail: detail() })
        )
    );
    let denied = || "injected PermissionDenied failure".to_string();
    assert_eq!(
        CheckpointCompletion::Poisoned { detail: denied() },
        complete_publication(empty_checkpoint(), Err(TypedStoreError::Rejected { detail: denied() }))
    );
    assert_eq!(
        CheckpointCompletion::Contradiction { detail: detail() },
        complete_publication(
            empty_checkpoint(),
            Err(TypedStoreError::Contradiction { detail: detail() })
        )
    );

    let invalid = CheckpointInput {
        source: Seal::new(
            partition(),
            generation(2),
            through(1, 1),
            TreeVersion::empty(),
            TreeVersion::empty(),
        )
        .unwrap(),
        base: Forest::empty(),
        snapshot: Forest::empty(),
        cut: batch(1),
        attempt: AttemptId::new(generation(2), 0),
    };
    let prepared = prepare_checkpoint(invalid, &|_table: EncodedTable| {
        panic!("a cut that does not advance emits no table")
    });
    let Err(CheckpointCompletion::Contradiction { detail }) =
        publishable(TableEstablishment::Established, Preparation::Finished(prepared))
    else {
        panic!("a cut that does not advance contradicts its source");
    };
    assert!(detail.contains("does not advance"));
}

#[test]
fn a_cut_that_does_not_advance_is_refused_with_tables_to_store() {
    let mut snapshot = Forest::empty();
    assert_eq!(Ok(Applied), snapshot.strict_fold(batch(7), &created("events/a", 1)));
    for (covered, cut) in [(7, 7), (7, 3), (u64::MAX, 1)] {
        let source = Seal::new(
            partition(),
            generation(2),
            through(covered, 1),
            TreeVersion::empty(),
            TreeVersion::empty(),
        )
        .unwrap();
        let input = CheckpointInput {
            source,
            base: Forest::empty(),
            snapshot: snapshot.clone(),
            cut: batch(cut),
            attempt: AttemptId::new(generation(2), 0),
        };
        let prepared = prepare_checkpoint(input, &|_table: EncodedTable| {
            panic!("a cut that does not advance emits no table")
        });
        let Err(error) = prepared else {
            panic!("cut {cut} does not advance {covered}");
        };
        assert_eq!("checkpoint cut does not advance the Seal replay cut", error.to_string());
    }
}

fn collection_seals() -> (Seal, Seal) {
    let kept = table(2, 1, 0, StoreKind::Directory, 0, 1);
    let dropped = table(2, 1, 0, StoreKind::Ledger, 1, 1);
    let fresh = table(3, 2, 0, StoreKind::Ledger, 0, 1);
    let source = Seal::new(
        partition(),
        generation(2),
        WalReplayPoint::Genesis,
        tree(vec![vec![kept]]),
        tree(vec![vec![dropped]]),
    )
    .unwrap();
    let successor = Seal::new(
        partition(),
        generation(3),
        through(4, 2),
        tree(vec![vec![kept]]),
        tree(vec![vec![fresh]]),
    )
    .unwrap();
    (source, successor)
}

fn read(number: u64, body: WalBody) -> CollectionEvent {
    let object =
        WalObject::new(partition(), batch(number), OwnerToken::from(generation(2)), body);
    let bytes = encode_wal(&object).unwrap();
    let observed = read_wal(
        &WalIdentity::new(partition(), batch(number)),
        Some((bytes, format!("etag-{number}"))),
        &grammar,
    );
    CollectionEvent::WalRead(observed)
}

fn run_body(number: u64) -> WalBody {
    let fact = OperationFact::StreamDeleted { path: path("events/a"), uid: uid(number) };
    WalBody::Run(BoundedNonEmptyVec::try_from(vec![fact]).unwrap())
}

#[test]
fn collection_complete_collection_deletes_only_covered_runs_and_dropped_source_tables() {
    let (source, successor) = collection_seals();
    assert_eq!((partition(), batch(1), batch(4)), plan_wal_collection(&source, &successor));
    let mut collection = Collection::new(&source, &successor);
    let mut deleted = Vec::new();
    let mut tables: Vec<AuthorizedTableDelete> = Vec::new();
    loop {
        let event = match &collection.phase {
            CollectionPhase::ReadWal { batch } => match batch.get() {
                1 | 4 => read(batch.get(), run_body(batch.get())),
                2 => read(2, WalBody::Fence),
                3 => CollectionEvent::WalRead(Ok(None)),
                other => panic!("coordinate {other} is not covered"),
            },
            CollectionPhase::DeleteRun { run } => {
                assert_eq!(format!("etag-{}", run.batch.get()), run.validator);
                deleted.push(run.batch.get());
                CollectionEvent::Deleted(Ok(()))
            }
            CollectionPhase::DeleteTable { at } => {
                tables.push(collection.tables[*at]);
                CollectionEvent::Deleted(Ok(()))
            }
            CollectionPhase::Done => break,
        };
        collection.handle(event);
    }
    assert_eq!(vec![1, 4], deleted, "the FENCE and the gap stay");
    let dropped = table(2, 1, 0, StoreKind::Ledger, 1, 1).object();
    assert_eq!(vec![AuthorizedTableDelete { object: dropped }], tables);
}

#[test]
fn collection_every_delete_failure_is_leak_only_and_repeated_collection_finishes() {
    let (source, successor) = collection_seals();
    let failure = || TypedStoreError::Retryable { detail: "backend".to_string() };
    for failing in 0..7usize {
        let mut collection = Collection::new(&source, &successor);
        let mut step = 0usize;
        loop {
            let fails = step == failing;
            let event = match &collection.phase {
                CollectionPhase::ReadWal { .. } if fails => CollectionEvent::WalRead(Err(failure())),
                CollectionPhase::ReadWal { batch } => read(batch.get(), run_body(batch.get())),
                CollectionPhase::Done => break,
                _ if fails => CollectionEvent::Deleted(Err(failure())),
                _ => CollectionEvent::Deleted(Ok(())),
            };
            collection.handle(event);
            step += 1;
            if fails {
                assert_eq!(CollectionPhase::Done, collection.phase);
            }
        }
        assert_eq!(failing + 1, step, "nothing follows the failed step");
    }
}

/// Runs a collection over batches (a RUN or not) and tables; the step at `failing`
/// fails, after its work where `done` says so.
fn run_collection(
    log: &mut BTreeMap<u64, bool>,
    tables: &mut Vec<TableObjectId>,
    failing: Option<(usize, bool)>,
) {
    let (source, successor) = collection_seals();
    let mut collection = Collection::new(&source, &successor);
    let mut step = 0usize;
    loop {
        let failure = match failing {
            Some((at, done)) if at == step => Some(done),
            _ => None,
        };
        let works = failure != Some(false);
        let error = || TypedStoreError::Retryable { detail: "backend".to_string() };
        let deleted = || if failure.is_some() { Err(error()) } else { Ok(()) };
        let event = match &collection.phase {
            CollectionPhase::ReadWal { .. } if failure.is_some() => {
                CollectionEvent::WalRead(Err(error()))
            }
            CollectionPhase::ReadWal { batch } => match log.get(&batch.get()) {
                None => CollectionEvent::WalRead(Ok(None)),
                Some(false) => read(batch.get(), WalBody::Fence),
                Some(true) => read(batch.get(), run_body(batch.get())),
            },
            CollectionPhase::DeleteRun { run } => {
                if works {
                    log.remove(&run.batch.get());
                }
                CollectionEvent::Deleted(deleted())
            }
            CollectionPhase::DeleteTable { at } => {
                if works {
                    let object = collection.tables[*at].object;
                    tables.retain(|table| *table != object);
                }
                CollectionEvent::Deleted(deleted())
            }
            CollectionPhase::Done => break,
        };
        collection.handle(event);
        step += 1;
    }
}

#[test]
fn collecting_again_after_any_failure_deletes_the_rest() {
    let kept = table(2, 1, 0, StoreKind::Directory, 0, 1).object();
    let dropped = table(2, 1, 0, StoreKind::Ledger, 1, 1).object();
    let fresh = table(3, 2, 0, StoreKind::Ledger, 0, 1).object();
    for failing in 0..8usize {
        for done in [false, true] {
            let mut log = BTreeMap::from([(1, true), (2, false), (3, true), (4, true), (5, true)]);
            let mut tables = vec![kept, dropped, fresh];
            run_collection(&mut log, &mut tables, Some((failing, done)));
            assert!(log.contains_key(&2) && log.contains_key(&5), "needed objects stay");
            assert!(tables.contains(&kept) && tables.contains(&fresh), "needed tables stay");
            assert_eq!(
                failing < 7 || !done,
                tables.contains(&dropped),
                "the first failed step ends the collection"
            );
            run_collection(&mut log, &mut tables, None);
            assert_eq!(BTreeMap::from([(2, false), (5, true)]), log);
            assert_eq!(vec![kept, fresh], tables);
        }
    }
}
