//! The resident forest, admission into it, and its construction from merged tables.

use strom_storage::domain::bounds::{
    PARTITION_PATH_OCCUPANCIES_MAX_V2, WAL_SUFFIX_COORDINATES_MAX_V2,
};
use strom_storage::domain::coordinate::{BatchId, StreamUid};
use strom_storage::domain::directory::{DirectoryEntry, DirectoryKey};
use strom_storage::domain::ledger::{LedgerCell, StreamRecord};
use strom_storage::domain::protocol::{
    ExpiryPolicy, ProtocolField, StreamContentType, StreamLifecycle, StreamTtl,
};
use strom_storage::domain::wal::OperationFact;
use strom_storage::engine::admission::{
    admit_close, admit_create, admit_delete, decide_suffix_room, AdmissionRefusal, AdmittedCommand,
    CloseAdmission, CreateAdmission, CreateStream,
};
use strom_storage::engine::base_load::{
    merge_directory_table, merge_ledger_table, MergedRows,
};
use strom_storage::engine::bootstrap_exit::BootstrapExit;
use strom_storage::engine::forest::{
    decide_successor_uid, Applied, FoldContradiction, Forest, ForestContradiction,
};

fn grammar(_field: ProtocolField<'_>) -> bool {
    true
}

fn path(raw: &str) -> DirectoryKey {
    DirectoryKey::new(raw.as_bytes().to_vec(), &grammar).unwrap()
}

fn kind(raw: &str) -> StreamContentType {
    StreamContentType::new(raw.to_string(), &grammar).unwrap()
}

fn octet_stream() -> StreamContentType {
    kind("application/octet-stream")
}

fn uid(raw: u64) -> StreamUid {
    StreamUid::try_from(raw).unwrap()
}

fn batch(raw: u64) -> BatchId {
    BatchId::try_from(raw).unwrap()
}

fn open_stream(raw: &str) -> CreateStream {
    CreateStream {
        path: path(raw),
        content_type: octet_stream(),
        expiry: ExpiryPolicy::Never,
        lifecycle: StreamLifecycle::Open,
    }
}

fn record() -> StreamRecord {
    StreamRecord::new(octet_stream(), ExpiryPolicy::Never, StreamLifecycle::Open, batch(1))
}

fn created(admission: Result<CreateAdmission, AdmissionRefusal>) -> AdmittedCommand {
    match admission {
        Ok(CreateAdmission::Fact(admitted)) => admitted,
        other => panic!("the create must produce a fact: {other:?}"),
    }
}

fn merged(
    directory: Vec<(DirectoryKey, DirectoryEntry)>,
    ledger: Vec<(StreamUid, LedgerCell)>,
) -> MergedRows {
    let mut merged = MergedRows::new();
    if !directory.is_empty() {
        merge_directory_table(&mut merged, None, &directory).unwrap();
    }
    if !ledger.is_empty() {
        merge_ledger_table(&mut merged, None, &ledger).unwrap();
    }
    merged
}

fn forest_of(
    directory: Vec<(DirectoryKey, DirectoryEntry)>,
    ledger: Vec<(StreamUid, LedgerCell)>,
) -> Result<Forest, ForestContradiction> {
    let merged = merged(directory, ledger);
    Forest::try_from_merged(merged.directory, merged.ledger)
}

#[test]
fn successor_allocation_accepts_the_last_slot_and_refuses_capacity() {
    assert_eq!(
        Ok(uid(PARTITION_PATH_OCCUPANCIES_MAX_V2)),
        decide_successor_uid(PARTITION_PATH_OCCUPANCIES_MAX_V2 - 1),
        "the final lifetime occupancy has one dense successor"
    );
    assert_eq!(
        Err(FoldContradiction::PathCapacityExhausted),
        decide_successor_uid(PARTITION_PATH_OCCUPANCIES_MAX_V2),
        "capacity is refused before successor arithmetic"
    );
    assert_eq!(Ok(uid(1)), decide_successor_uid(0));
}

#[test]
fn admission_suffix_gate_reserves_exactly_one_takeover_coordinate() {
    let last_genesis_run = batch(WAL_SUFFIX_COORDINATES_MAX_V2 - 1);
    let first_over_genesis = last_genesis_run.successor().unwrap();
    assert!(
        decide_suffix_room(None, last_genesis_run),
        "the final RUN plus its FENCE fits exactly at the bound"
    );
    assert!(
        !decide_suffix_room(None, first_over_genesis),
        "one additional RUN would consume the reserved FENCE"
    );

    let cut = batch(700);
    let last_after_cut = batch(cut.get() + WAL_SUFFIX_COORDINATES_MAX_V2 - 1);
    assert!(decide_suffix_room(Some(cut), last_after_cut));
    assert!(!decide_suffix_room(Some(cut), last_after_cut.successor().unwrap()));
    assert!(
        !decide_suffix_room(Some(cut), cut),
        "a proposed RUN must be strictly after the Seal cut"
    );
}

#[test]
fn suffix_gate_rejects_a_run_without_a_real_successor_coordinate() {
    let cut = batch(u64::MAX - 2);
    assert!(decide_suffix_room(Some(cut), batch(u64::MAX - 1)));
    assert!(!decide_suffix_room(Some(cut), batch(u64::MAX)));
}

#[test]
fn every_refusal_leaves_the_forest_unchanged() {
    let path = path("events/a");
    let create = open_stream("events/a");
    let forest = created(admit_create(&Forest::empty(), &create, batch(1))).forest;
    let before = forest.clone();
    let mismatched = CreateStream { content_type: kind("text/plain"), ..open_stream("events/a") };
    assert_eq!(
        Err(AdmissionRefusal::PathOccupied),
        admit_create(&forest, &mismatched, batch(1))
    );
    assert_eq!(before.path_count(), forest.path_count());
    assert_eq!(before.resolve(&path), forest.resolve(&path));

    assert_eq!(Ok(CreateAdmission::AlreadyExists), admit_create(&forest, &create, batch(1)));
    assert_eq!(before.path_count(), forest.path_count());
    assert_eq!(before, forest);

    let Ok(CloseAdmission::Fact(closed)) = admit_close(&forest, &path, batch(1)) else {
        panic!("first close must produce a fact");
    };
    let forest = closed.forest;
    let record_before = forest.record(uid(1)).cloned();
    assert_eq!(Ok(CloseAdmission::AlreadyClosed), admit_close(&forest, &path, batch(1)));
    assert_eq!(record_before.as_ref(), forest.record(uid(1)));

    let missing = DirectoryKey::new(b"events/missing".to_vec(), &grammar).unwrap();
    let before_count = forest.path_count();
    assert_eq!(
        Err(AdmissionRefusal::PathNotLive),
        admit_delete(&forest, &missing, batch(1))
    );
    assert_eq!(before_count, forest.path_count());
}

#[test]
fn create_closed_installs_closed_lifecycle_and_is_idempotent() {
    let create_closed =
        CreateStream { lifecycle: StreamLifecycle::Closed, ..open_stream("events/closed") };
    let admitted = created(admit_create(&Forest::empty(), &create_closed, batch(1)));
    assert_eq!(
        Some(StreamLifecycle::Closed),
        admitted.forest.record(uid(1)).map(StreamRecord::lifecycle),
        "one StreamCreated fact carries Closed into the ledger"
    );
    assert_eq!(
        Ok(CreateAdmission::AlreadyExists),
        admit_create(&admitted.forest, &create_closed, batch(1))
    );
    assert_eq!(
        Err(AdmissionRefusal::PathOccupied),
        admit_create(&admitted.forest, &open_stream("events/closed"), batch(1)),
        "open-create on a create-closed stream is a config mismatch"
    );
}

#[test]
fn create_refuses_each_config_mismatch_axis() {
    let forest =
        created(admit_create(&Forest::empty(), &open_stream("events/match"), batch(1))).forest;
    let axes = [
        CreateStream { content_type: kind("text/plain"), ..open_stream("events/match") },
        CreateStream {
            expiry: ExpiryPolicy::SlidingTtl(StreamTtl { seconds: 60 }),
            ..open_stream("events/match")
        },
        CreateStream { lifecycle: StreamLifecycle::Closed, ..open_stream("events/match") },
    ];
    for axis in axes {
        assert_eq!(
            Err(AdmissionRefusal::PathOccupied),
            admit_create(&forest, &axis, batch(1)),
            "content type, expiry and lifecycle mismatches refuse"
        );
    }
}

#[test]
fn delete_preserves_path_occupancy_and_the_next_create_gets_the_dense_successor() {
    let first = created(admit_create(&Forest::empty(), &open_stream("events/a"), batch(1)));
    let forest = admit_delete(&first.forest, &path("events/a"), batch(1)).unwrap().forest;
    assert_eq!(
        Err(AdmissionRefusal::PathOccupied),
        admit_create(&forest, &open_stream("events/a"), batch(1))
    );
    let admitted = created(admit_create(&forest, &open_stream("events/b"), batch(1)));
    assert_eq!(
        Some(DirectoryEntry::Live(uid(2))),
        admitted.forest.resolve(&path("events/b"))
    );
}

#[test]
fn merged_constructor_enumerates_every_cross_store_contradiction() {
    assert_eq!(
        Err(ForestContradiction::CountMismatch),
        forest_of(vec![(path("events/a"), DirectoryEntry::Live(uid(2)))], Vec::new())
    );
    assert_eq!(
        Err(ForestContradiction::UidGap),
        forest_of(
            vec![
                (path("events/a"), DirectoryEntry::Live(uid(1))),
                (path("events/b"), DirectoryEntry::Live(uid(1))),
                (path("events/c"), DirectoryEntry::Live(uid(3))),
            ],
            Vec::new()
        )
    );
    assert_eq!(
        Err(ForestContradiction::LiveWithoutRecord),
        forest_of(vec![(path("events/a"), DirectoryEntry::Live(uid(1)))], Vec::new())
    );
    assert_eq!(
        Err(ForestContradiction::TombstoneWithRecord),
        forest_of(
            vec![(path("events/a"), DirectoryEntry::Tombstone(uid(1)))],
            vec![(uid(1), LedgerCell::Value(record()))]
        )
    );
    assert_eq!(
        Err(ForestContradiction::RecordWithoutLive),
        forest_of(
            vec![(path("events/a"), DirectoryEntry::Live(uid(1)))],
            vec![(uid(1), LedgerCell::Value(record())), (uid(2), LedgerCell::Value(record()))]
        )
    );
}

#[test]
fn merged_constructor_accepts_exact_live_and_tombstone_correspondence() {
    let forest = forest_of(
        vec![
            (path("events/deleted"), DirectoryEntry::Tombstone(uid(2))),
            (path("events/live"), DirectoryEntry::Live(uid(1))),
        ],
        vec![(uid(1), LedgerCell::Value(record()))],
    )
    .unwrap();
    assert_eq!(2, forest.path_count());
    assert_eq!(Some(DirectoryEntry::Live(uid(1))), forest.resolve(&path("events/live")));
    assert_eq!(
        Some(DirectoryEntry::Tombstone(uid(2))),
        forest.resolve(&path("events/deleted"))
    );
    assert!(forest.record(uid(1)).is_some());
    assert!(forest.record(uid(2)).is_none());
}

#[test]
fn pure_table_merge_rejects_run_overlap() {
    let mut merged = MergedRows::new();
    let rows = vec![(uid(1), LedgerCell::Value(record()))];
    let last = merge_ledger_table(&mut merged, None, &rows).unwrap();
    assert_eq!(uid(1), last);
    assert!(matches!(
        merge_ledger_table(&mut merged, Some(last), &rows),
        Err(BootstrapExit::Contradiction { .. })
    ));
    let rows = vec![(path("events/b"), DirectoryEntry::Live(uid(1)))];
    let last = merge_directory_table(&mut merged, None, &rows).unwrap();
    let overlap = vec![(path("events/a"), DirectoryEntry::Live(uid(2)))];
    assert!(matches!(
        merge_directory_table(&mut merged, Some(&last), &overlap),
        Err(BootstrapExit::Contradiction { .. })
    ));
}

#[test]
fn newer_rows_shadow_older_ones() {
    let mut merged = merged(
        vec![(path("events/a"), DirectoryEntry::Live(uid(1)))],
        vec![(uid(1), LedgerCell::Value(record()))],
    );
    let newer = vec![
        (path("events/a"), DirectoryEntry::Tombstone(uid(1))),
        (path("events/b"), DirectoryEntry::Live(uid(2))),
    ];
    merge_directory_table(&mut merged, None, &newer).unwrap();
    let newer = vec![(uid(1), LedgerCell::Delete), (uid(2), LedgerCell::Value(record()))];
    merge_ledger_table(&mut merged, None, &newer).unwrap();
    let forest = Forest::try_from_merged(merged.directory, merged.ledger).unwrap();
    assert_eq!(Some(DirectoryEntry::Tombstone(uid(1))), forest.resolve(&path("events/a")));
    assert!(forest.record(uid(1)).is_none());
    assert!(forest.record(uid(2)).is_some());
}

#[test]
fn strict_fold_refuses_every_contradicting_fact() {
    let create = |raw: &str, number: u64| OperationFact::StreamCreated {
        path: path(raw),
        uid: uid(number),
        content_type: octet_stream(),
        expiry: ExpiryPolicy::Never,
        lifecycle: StreamLifecycle::Open,
    };
    let mut forest = Forest::empty();
    let empty = forest.clone();
    assert_eq!(
        Err(FoldContradiction::UidNotDenseSuccessor),
        forest.strict_fold(batch(1), &create("events/a", 2))
    );
    assert_eq!(empty, forest);
    assert_eq!(Ok(Applied), forest.strict_fold(batch(1), &create("events/a", 1)));
    let before = forest.clone();
    assert!(forest.strict_fold(batch(2), &create("events/a", 2)).is_err());
    let close = |raw: &str, number: u64| OperationFact::StreamClosed {
        path: path(raw),
        uid: uid(number),
    };
    assert!(forest.strict_fold(batch(2), &close("events/missing", 1)).is_err());
    assert!(forest.strict_fold(batch(2), &close("events/a", 2)).is_err());
    assert_eq!(before, forest, "a refused fact changes nothing");
    assert_eq!(Ok(Applied), forest.strict_fold(batch(2), &close("events/a", 1)));
    assert!(forest.strict_fold(batch(3), &close("events/a", 1)).is_err());
    let delete = OperationFact::StreamDeleted { path: path("events/a"), uid: uid(1) };
    assert_eq!(Ok(Applied), forest.strict_fold(batch(3), &delete));
    assert!(forest.strict_fold(batch(4), &delete).is_err());
    assert_eq!(Some(DirectoryEntry::Tombstone(uid(1))), forest.resolve(&path("events/a")));
    assert_eq!(1, forest.path_count());
    assert_eq!(Ok(uid(2)), forest.successor_uid());
}
