//! What the resident state accepts, how it is loaded and how it is checkpointed, said of
//! rows, coordinates and sizes.

use vstd::prelude::*;

use crate::domain::candidate::{DecodedTable, EncodedTable, RowsModel};
use crate::domain::coordinate::{BatchId, StreamUid};
use crate::domain::directory::DirectoryEntry;
use crate::domain::ledger::{LedgerCell, RecordModel};
use crate::domain::protocol::StreamLifecycle;
use crate::domain::seal::{Seal, TableRef, WalReplayPoint};
use crate::domain::table::StoreKind;
use crate::domain::wal::{FactModel, OperationFact};
use crate::engine::base_load::{
    add_resident_bytes, plan_bootstrap_sources, BaseLoad, BootstrapPlan, LoadModel, MergedModel,
};
use crate::engine::bootstrap_exit::BootstrapExit;
use crate::engine::checkpoint::{CheckpointInput, CheckpointInstall};
use crate::engine::chunks::{account_rows, plan_chunks, Chunk, ChunkAccounting};
use crate::engine::collection::{plan_wal_collection, Collection, CollectionEvent, CollectionPhase};
use crate::engine::delta::{CellsModel, ForestDelta};
use crate::engine::forest::{
    decide_successor_uid, FoldContradiction, Forest, ForestContradiction, ForestModel,
};
use crate::engine::ordered::{DirectoryRows, LedgerRows};
use crate::engine::prepare::{
    ledger_row_bytes, prepare_checkpoint, select_delta, CheckpointContradiction, PreparedCheckpoint,
    TableBirth,
};
use crate::engine::recovery::fold_replay_facts;
use crate::engine::recovery_laws::oldest_first;

verus! {

// Folds

/// The next stream is one more than there are paths, up to ten million.
pub proof fn law_streams_are_numbered_in_order(
    paths: u64,
    uid: Result<StreamUid, FoldContradiction>,
)
    requires
        call_ensures(decide_successor_uid, (paths,), uid),
    ensures
        paths < 10_000_000 ==> (uid matches Ok(next) && next.value == paths + 1),
        paths >= 10_000_000 ==> uid == Err::<StreamUid, FoldContradiction>(
            FoldContradiction::PathCapacityExhausted,
        ),
{
}

/// A creation folds exactly when its path was never occupied, a place is left and its
/// stream is the next one; the first of these that fails is what it contradicts.
pub proof fn law_creations_fold_on_fresh_paths(
    forest: ForestModel,
    batch: BatchId,
    path: Seq<u8>,
    uid: StreamUid,
    content_type: Seq<char>,
    expiry: crate::domain::protocol::ExpiryPolicy,
    lifecycle: StreamLifecycle,
)
    ensures
        ({
            let folded = forest.fold(
                batch,
                FactModel::StreamCreated { path, uid, content_type, expiry, lifecycle },
            );
            let count = forest.directory.dom().len();
            if forest.directory.dom().contains(path) {
                folded == Err::<ForestModel, FoldContradiction>(FoldContradiction::PathOccupied)
            } else if count >= 10_000_000 {
                folded == Err::<ForestModel, FoldContradiction>(
                    FoldContradiction::PathCapacityExhausted,
                )
            } else if uid.value != count + 1 {
                folded == Err::<ForestModel, FoldContradiction>(
                    FoldContradiction::UidNotDenseSuccessor,
                )
            } else {
                folded is Ok
            }
        }),
{
}

/// A close and a delete fold exactly when the path's live stream is the named one and, for
/// a close, is not closed yet.
pub proof fn law_closes_and_deletes_fold_on_live_paths(
    forest: ForestModel,
    batch: BatchId,
    path: Seq<u8>,
    uid: StreamUid,
)
    ensures
        ({
            let closed = forest.fold(batch, FactModel::StreamClosed { path, uid });
            let deleted = forest.fold(batch, FactModel::StreamDeleted { path, uid });
            let entry = forest.directory[path];
            if !forest.directory.dom().contains(path) || entry is Tombstone {
                &&& closed == Err::<ForestModel, FoldContradiction>(FoldContradiction::PathNotLive)
                &&& deleted == Err::<ForestModel, FoldContradiction>(FoldContradiction::PathNotLive)
            } else if entry->Live_0.value != uid.value {
                &&& closed == Err::<ForestModel, FoldContradiction>(
                    FoldContradiction::PathUidMismatch,
                )
                &&& deleted == Err::<ForestModel, FoldContradiction>(
                    FoldContradiction::PathUidMismatch,
                )
            } else {
                &&& deleted is Ok
                &&& if forest.ledger[uid.value].lifecycle == StreamLifecycle::Closed {
                    closed == Err::<ForestModel, FoldContradiction>(
                        FoldContradiction::StreamAlreadyClosed,
                    )
                } else {
                    closed is Ok
                }
            }
        }),
{
}

/// Facts of a batch fold in their order, each on what the ones before it gave; none
/// changes nothing.
pub proof fn law_facts_fold_in_order(
    forest: ForestModel,
    batch: BatchId,
    facts: Seq<FactModel>,
    fact: FactModel,
)
    ensures
        forest.fold_all(batch, Seq::empty()) == Ok::<ForestModel, FoldContradiction>(forest),
        forest.fold_all(batch, seq![fact]) == forest.fold(batch, fact),
        match forest.fold_all(batch, facts) {
            Ok(before) => forest.fold_all(batch, facts.push(fact)) == before.fold(batch, fact),
            Err(found) => forest.fold_all(batch, facts.push(fact)) == Err::<
                ForestModel,
                FoldContradiction,
            >(found),
        },
{
    assert(facts.push(fact).drop_last() =~= facts);
    assert(seq![fact].drop_last() =~= Seq::<FactModel>::empty());
    assert(forest.fold_all(batch, Seq::empty()) == Ok::<ForestModel, FoldContradiction>(forest));
}

/// A valid forest: at most ten million paths, whose streams are numbered without a gap or
/// a repetition; every live path has a record, every record a live path, and all paths,
/// content types and times to live are within their sizes.
#[verifier::rlimit(50)]
pub proof fn law_valid_forests(forest: ForestModel)
    requires
        forest.wf(),
    ensures
        forest.directory.dom().len() <= 10_000_000,
        forall|path: Seq<u8>| #[trigger]
            forest.directory.dom().contains(path) ==> {
                &&& path.len() <= 512
                &&& match forest.directory[path] {
                    DirectoryEntry::Live(uid) => 1 <= uid.value <= forest.directory.dom().len()
                        && forest.ledger.dom().contains(uid.value),
                    DirectoryEntry::Tombstone(uid) => 1 <= uid.value
                        <= forest.directory.dom().len() && !forest.ledger.dom().contains(uid.value),
                }
            },
        forall|uid: u64| #[trigger]
            forest.ledger.dom().contains(uid) ==> {
                &&& vstd::utf8::encode_utf8(forest.ledger[uid].content_type).len() <= 256
                &&& forest.ledger[uid].created_at.value != 0
                &&& forest.ledger[uid].expiry
                    matches crate::domain::protocol::ExpiryPolicy::SlidingTtl(ttl) ==> ttl.seconds
                    != 0
                &&& exists|path: Seq<u8>| #[trigger]
                    forest.directory.dom().contains(path) && forest.directory[path]
                        == DirectoryEntry::Live(StreamUid { value: uid })
            },
{
    assert forall|path: Seq<u8>| #[trigger] forest.directory.dom().contains(path) implies {
        &&& path.len() <= 512
        &&& match forest.directory[path] {
            DirectoryEntry::Live(uid) => 1 <= uid.value <= forest.directory.dom().len()
                && forest.ledger.dom().contains(uid.value),
            DirectoryEntry::Tombstone(uid) => 1 <= uid.value <= forest.directory.dom().len()
                && !forest.ledger.dom().contains(uid.value),
        }
    } by {
        assert(1 <= forest.directory[path].spec_uid().value <= forest.path_count());
        assert(forest.live(path) matches Some(uid) ==> forest.ledger.dom().contains(uid.value));
        if let DirectoryEntry::Tombstone(uid) = forest.directory[path] {
            if forest.ledger.dom().contains(uid.value) {
                let other = choose|other: Seq<u8>| #[trigger]
                    forest.live(other) == Some(StreamUid { value: uid.value });
                assert(forest.directory.dom().contains(other));
                assert(forest.directory[other].spec_uid() == forest.directory[path].spec_uid());
                assert(other == path);
            }
        }
    }
    assert forall|uid: u64| #[trigger] forest.ledger.dom().contains(uid) implies {
        &&& vstd::utf8::encode_utf8(forest.ledger[uid].content_type).len() <= 256
        &&& forest.ledger[uid].created_at.value != 0
        &&& forest.ledger[uid].expiry matches crate::domain::protocol::ExpiryPolicy::SlidingTtl(ttl)
            ==> ttl.seconds != 0
        &&& exists|path: Seq<u8>| #[trigger]
            forest.directory.dom().contains(path) && forest.directory[path] == DirectoryEntry::Live(
                StreamUid { value: uid },
            )
    } by {
        assert(forest.ledger[uid].wf());
        let path = choose|path: Seq<u8>| #[trigger]
            forest.live(path) == Some(StreamUid { value: uid });
        assert(forest.directory.dom().contains(path));
    }
}

/// Merged rows become a forest of just those rows, and only rows that are a valid forest
/// do; every valid forest's rows do.
pub proof fn law_only_valid_rows_become_a_forest(
    directory: DirectoryRows,
    ledger: LedgerRows,
    forest: Result<Forest, ForestContradiction>,
)
    requires
        (ForestModel { directory: directory@, ledger: ledger@ }).fits(),
        call_ensures(Forest::try_from_merged, (directory, ledger), forest),
    ensures
        forest matches Ok(made) ==> made@.directory == directory@ && made@.ledger == ledger@
            && made@.wf(),
        (ForestModel { directory: directory@, ledger: ledger@ }).wf() ==> forest is Ok,
{
    let merged = ForestModel { directory: directory@, ledger: ledger@ };
    if merged.wf() {
        crate::engine::forest::law_valid_rows_are_accepted(merged);
    }
}

/// The stream that a path was given.
pub open spec fn stream_at(forest: ForestModel, path: Seq<u8>) -> u64 {
    match forest.directory[path] {
        DirectoryEntry::Live(uid) => uid.value,
        DirectoryEntry::Tombstone(uid) => uid.value,
    }
}

proof fn lemma_first_wrong_entry(
    rows: Seq<(Seq<u8>, DirectoryEntry)>,
    count: nat,
) -> (i: int)
    requires
        crate::engine::forest::entries_error(rows, count) is Some,
    ensures
        0 <= i < count,
        crate::engine::forest::entries_error(rows, count) == crate::engine::forest::entry_error(
            rows,
            i,
        ),
    decreases count,
{
    let fewer = (count - 1) as nat;
    if crate::engine::forest::entries_error(rows, fewer) is Some {
        lemma_first_wrong_entry(rows, fewer)
    } else {
        count - 1
    }
}

proof fn lemma_first_wrong_record(
    rows: Seq<(Seq<u8>, DirectoryEntry)>,
    records: Seq<(u64, RecordModel)>,
    count: nat,
) -> (i: int)
    requires
        crate::engine::forest::records_error(rows, records, count) is Some,
    ensures
        0 <= i < count,
        crate::engine::forest::records_error(rows, records, count)
            == crate::engine::forest::record_error(rows, records[i].0),
    decreases count,
{
    let fewer = (count - 1) as nat;
    if crate::engine::forest::records_error(rows, records, fewer) is Some {
        lemma_first_wrong_record(rows, records, fewer)
    } else {
        count - 1
    }
}

/// The contradiction that merged rows are refused with names what is wrong with them: a
/// count mismatch is too many paths or a stream beyond their number; a gap is a zero
/// stream or one that two paths have; the others name a record without a live path, a
/// tombstone with a record, or a live path without one.
#[verifier::rlimit(50)]
pub proof fn law_contradictions_name_what_is_wrong(merged: ForestModel)
    requires
        merged.directory.dom().finite(),
    ensures
        match crate::engine::forest::merged_error(merged) {
            None => true,
            Some(ForestContradiction::CountMismatch) => merged.directory.dom().len() > 10_000_000
                || exists|path: Seq<u8>| #[trigger]
                merged.directory.dom().contains(path) && stream_at(merged, path)
                    > merged.directory.dom().len(),
            Some(ForestContradiction::UidGap) => exists|path: Seq<u8>, other: Seq<u8>| #[trigger]
                merged.directory.dom().contains(path) && #[trigger]
                merged.directory.dom().contains(other) && (stream_at(merged, path) == 0 || (path
                    != other && stream_at(merged, path) == stream_at(merged, other))),
            Some(ForestContradiction::RecordWithoutLive) => exists|uid: u64| #[trigger]
                merged.ledger.dom().contains(uid) && forall|path: Seq<u8>| #[trigger]
                    merged.directory.dom().contains(path) ==> stream_at(merged, path) != uid,
            Some(ForestContradiction::TombstoneWithRecord) => exists|path: Seq<u8>| #[trigger]
                merged.directory.dom().contains(path) && merged.directory[path] is Tombstone
                    && merged.ledger.dom().contains(stream_at(merged, path)),
            Some(ForestContradiction::LiveWithoutRecord) => exists|path: Seq<u8>| #[trigger]
                merged.directory.dom().contains(path) && merged.directory[path] is Live
                    && !merged.ledger.dom().contains(stream_at(merged, path)),
        },
{
    let rows = crate::engine::forest::directory_listing(merged.directory);
    let records = crate::engine::forest::ledger_listing(merged.ledger);
    let _ = crate::engine::ordered::lemma_directory_has_listing(merged.directory);
    assert(crate::engine::ordered::directory_lists(rows, merged.directory));
    crate::engine::ordered::lemma_directory_lists_len(rows, merged.directory);
    let _ = crate::engine::ordered::lemma_ledger_has_listing(
        merged.ledger,
        0x1_0000_0000_0000_0000,
    );
    assert(crate::engine::ordered::ledger_lists(records, merged.ledger));
    if rows.len() > 10_000_000 {
    } else if crate::engine::forest::entries_error(rows, rows.len()) is Some {
        let i = lemma_first_wrong_entry(rows, rows.len());
        let path = rows[i].0;
        assert(merged.directory.dom().contains(path) && merged.directory[path] == rows[i].1);
        assert(stream_at(merged, path) == rows[i].1.spec_uid().value);
        if rows[i].1.spec_uid().value != 0 && rows[i].1.spec_uid().value <= rows.len() {
            let j = choose|j: int|
                0 <= j < i && (#[trigger] rows[j]).1.spec_uid() == rows[i].1.spec_uid();
            let other = rows[j].0;
            assert(merged.directory.dom().contains(other));
            crate::domain::text::lemma_bytes_less_asymmetric(rows[j].0, rows[i].0);
            assert(stream_at(merged, other) == stream_at(merged, path));
        }
    } else if crate::engine::forest::records_error(rows, records, records.len()) is Some {
        let i = lemma_first_wrong_record(rows, records, records.len());
        let uid = records[i].0;
        assert(merged.ledger.dom().contains(uid));
        let dead = DirectoryEntry::Tombstone(StreamUid { value: uid });
        let live = DirectoryEntry::Live(StreamUid { value: uid });
        if crate::engine::forest::has_entry(rows, dead) {
            let j = choose|j: int| 0 <= j < rows.len() && (#[trigger] rows[j]).1 == dead;
            assert(merged.directory.dom().contains(rows[j].0));
            assert(stream_at(merged, rows[j].0) == uid);
        } else {
            assert forall|path: Seq<u8>| #[trigger]
                merged.directory.dom().contains(path) implies stream_at(merged, path) != uid by {
                let j = choose|j: int| 0 <= j < rows.len() && (#[trigger] rows[j]).0 == path;
                assert(rows[j].1 == merged.directory[path]);
                assert(rows[j].1 != dead && rows[j].1 != live);
            }
        }
    } else if crate::engine::forest::merged_error(merged) is Some {
        let path = choose|path: Seq<u8>|
            #![trigger merged.live(path)]
            merged.live(path) matches Some(uid) && !merged.ledger.dom().contains(uid.value);
        assert(merged.directory.dom().contains(path));
    }
}

// Loading

/// A Seal's tables are loaded exactly when they are at most a thousand and twenty-four
/// and at most thirty-two gibibytes together, each tree from its oldest run on.
pub proof fn law_sources_are_bounded(seal: Seal, plan: Result<BootstrapPlan, BootstrapExit>)
    requires
        call_ensures(plan_bootstrap_sources, (&seal,), plan),
    ensures
        plan is Ok <==> seal@.tables().len() <= 1024 && crate::engine::base_load::tables_bytes(
            seal@.tables(),
        ) <= 34_359_738_368,
        plan matches Ok(made) ==> oldest_first(made@.directory, seal.directory@) && oldest_first(
            made@.ledger,
            seal.ledger@,
        ),
        plan matches Err(exit) ==> exit is Contradiction,
{
}

/// The length of tables is the sum of their lengths.
pub proof fn law_table_lengths_add_up(first: Seq<TableRef>, second: Seq<TableRef>, table: TableRef)
    ensures
        crate::engine::base_load::tables_bytes(Seq::empty()) == 0,
        crate::engine::base_load::tables_bytes(first.push(table))
            == crate::engine::base_load::tables_bytes(first) + table.object_bytes,
        crate::engine::base_load::tables_bytes(first + second)
            == crate::engine::base_load::tables_bytes(first)
            + crate::engine::base_load::tables_bytes(second),
    decreases second.len(),
{
    assert(first.push(table).drop_last() =~= first);
    if second.len() == 0 {
        assert(first + second =~= first);
    } else {
        law_table_lengths_add_up(first, second.drop_last(), table);
        assert((first + second).drop_last() =~= first + second.drop_last());
    }
}

/// The resident account goes up to sixteen gibibytes.
pub proof fn law_resident_bytes_are_bounded(
    current: u64,
    additional: u64,
    total: Result<u64, BootstrapExit>,
)
    requires
        call_ensures(add_resident_bytes, (current, additional), total),
    ensures
        total is Ok <==> current + additional <= 17_179_869_184,
        total matches Ok(sum) ==> sum == current + additional,
        total matches Err(exit) ==> exit is Contradiction,
{
}

/// One merged Directory row replaces what its path had and leaves all else; a new path is
/// charged five hundred and twenty-five bytes.
pub proof fn law_one_entry_is_merged(
    merged: MergedModel,
    path: Seq<u8>,
    entry: DirectoryEntry,
    other: Seq<u8>,
)
    ensures
        ({
            let after = merged.with_entry((path, entry));
            let held = merged.rows.directory.dom().contains(path);
            &&& after is Some <==> held || merged.resident_bytes + 525 <= 17_179_869_184
            &&& after matches Some(after) ==> {
                &&& after.rows.directory.dom().contains(path)
                &&& after.rows.directory[path] == entry
                &&& other != path ==> after.rows.directory.dom().contains(other)
                    == merged.rows.directory.dom().contains(other)
                    && after.rows.directory[other] == merged.rows.directory[other]
                &&& after.rows.ledger == merged.rows.ledger
                &&& after.resident_bytes == merged.resident_bytes + (if held {
                    0int
                } else {
                    525int
                })
            }
        }),
{
}

/// One merged Ledger row replaces or removes its stream's record and leaves all else; a
/// new record is charged a thousand and thirty-five bytes, and a removed one gives them
/// back.
pub proof fn law_one_cell_is_merged(
    merged: MergedModel,
    uid: StreamUid,
    cell: Option<RecordModel>,
    other: u64,
)
    requires
        merged.rows.ledger.dom().contains(uid.value) ==> merged.resident_bytes >= 1035,
    ensures
        ({
            let after = merged.with_cell((uid, cell));
            let held = merged.rows.ledger.dom().contains(uid.value);
            &&& after is Some <==> cell is None || held || merged.resident_bytes + 1035
                <= 17_179_869_184
            &&& after matches Some(after) ==> {
                &&& match cell {
                    Some(record) => after.rows.ledger.dom().contains(uid.value)
                        && after.rows.ledger[uid.value] == record,
                    None => !after.rows.ledger.dom().contains(uid.value),
                }
                &&& other != uid.value ==> after.rows.ledger.dom().contains(other)
                    == merged.rows.ledger.dom().contains(other) && (
                merged.rows.ledger.dom().contains(other) ==> after.rows.ledger[other]
                    == merged.rows.ledger[other])
                &&& after.rows.directory == merged.rows.directory
                &&& after.resident_bytes == merged.resident_bytes + (if cell is Some && !held {
                    1035int
                } else if cell is None && held {
                    -1035int
                } else {
                    0int
                })
            }
        }),
{
}

/// Rows are merged in their order.
pub proof fn law_rows_are_merged_in_order(
    merged: MergedModel,
    entries: Seq<(Seq<u8>, DirectoryEntry)>,
    entry: (Seq<u8>, DirectoryEntry),
    cells: Seq<(StreamUid, Option<RecordModel>)>,
    cell: (StreamUid, Option<RecordModel>),
)
    ensures
        merged.with_entries(Seq::empty()) == Some(merged),
        merged.with_cells(Seq::empty()) == Some(merged),
        merged.with_entries(entries.push(entry)) == (match merged.with_entries(entries) {
            Some(before) => before.with_entry(entry),
            None => None,
        }),
        merged.with_cells(cells.push(cell)) == (match merged.with_cells(cells) {
            Some(before) => before.with_cell(cell),
            None => None,
        }),
{
    assert(entries.push(entry).drop_last() =~= entries);
    assert(cells.push(cell).drop_last() =~= cells);
}

/// A load starts with nothing, takes the Directory's tables and then the Ledger's, each
/// of its own store, and within a run each after the one before it; a new run may start
/// anywhere.
#[verifier::rlimit(50)]
pub proof fn law_loads_take_tables_in_order(load: LoadModel, rows: RowsModel)
    requires
        load.wf(),
        load.next() is Some,
        rows.wf(),
    ensures
        LoadModel::start(load.plan).plan == load.plan,
        LoadModel::start(load.plan).run == 0 && LoadModel::start(load.plan).table == 0,
        LoadModel::start(load.plan).merged.resident_bytes == 0,
        forall|path: Seq<u8>|
            !(#[trigger] LoadModel::start(load.plan).merged.rows.directory.dom().contains(path)),
        forall|uid: u64|
            !(#[trigger] LoadModel::start(load.plan).merged.rows.ledger.dom().contains(uid)),
        load.next() == Some(
            if load.run < load.plan.directory.len() {
                load.plan.directory[load.run as int][load.table as int]
            } else {
                load.plan.ledger[load.run - load.plan.directory.len()][load.table as int]
            },
        ),
        ({
            let tree = if load.run < load.plan.directory.len() {
                load.plan.directory[load.run as int]
            } else {
                load.plan.ledger[load.run - load.plan.directory.len()]
            };
            let merged = load.merge(rows);
            &&& load.run < load.plan.directory.len() && rows is Ledger ==> merged is Err
            &&& load.run >= load.plan.directory.len() && rows is Directory ==> merged is Err
            &&& load.run < load.plan.directory.len() ==> (rows matches RowsModel::Directory(entries)
                ==> (merged is Ok <==> (load.last_path matches Some(last)
                ==> crate::domain::text::bytes_less(last, entries[0].0))
                && load.merged.with_entries(entries) is Some))
            &&& load.run >= load.plan.directory.len() ==> (rows matches RowsModel::Ledger(cells)
                ==> (merged is Ok <==> (load.last_uid matches Some(last) ==> last.value
                < cells[0].0.value) && load.merged.with_cells(cells) is Some))
            &&& merged matches Err(exit) ==> exit is Contradiction
            &&& merged matches Ok(after) ==> {
                &&& after.plan == load.plan
                &&& if load.table + 1 < tree.len() {
                    after.run == load.run && after.table == load.table + 1
                } else {
                    after.run == load.run + 1 && after.table == 0 && after.last_path is None
                        && after.last_uid is None
                }
                &&& rows matches RowsModel::Directory(entries) ==> {
                    &&& load.merged.with_entries(entries) == Some(after.merged)
                    &&& load.last_path matches Some(last) ==> crate::domain::text::bytes_less(
                        last,
                        entries[0].0,
                    )
                    &&& load.table + 1 < tree.len() ==> after.last_path == Some(entries.last().0)
                }
                &&& rows matches RowsModel::Ledger(cells) ==> {
                    &&& load.merged.with_cells(cells) == Some(after.merged)
                    &&& load.last_uid matches Some(last) ==> last.value < cells[0].0.value
                    &&& load.table + 1 < tree.len() ==> after.last_uid == Some(cells.last().0)
                }
            }
        }),
{
}

/// Merging a read table moves on to the next one with its rows merged; a table that cannot
/// be merged stays the next.
pub proof fn law_loads_merge_what_was_read(
    load: &mut BaseLoad,
    rows: DecodedTable,
    merged: Result<(), BootstrapExit>,
)
    requires
        old(load).wf(),
        old(load)@.next() is Some,
        rows@.wf(),
        call_ensures(BaseLoad::merge, (load, &rows), merged),
    ensures
        final(load)@.plan == old(load)@.plan,
        merged is Err ==> {
            &&& merged->Err_0 is Contradiction
            &&& final(load)@.run == old(load)@.run && final(load)@.table == old(load)@.table
            &&& final(load)@.last_path == old(load)@.last_path
            &&& final(load)@.last_uid == old(load)@.last_uid
        },
        merged is Ok ==> {
            let tree = if old(load)@.run < old(load)@.plan.directory.len() {
                old(load)@.plan.directory[old(load)@.run as int]
            } else {
                old(load)@.plan.ledger[old(load)@.run - old(load)@.plan.directory.len()]
            };
            &&& rows is Directory <==> old(load)@.run < old(load)@.plan.directory.len()
            &&& if old(load)@.table + 1 < tree.len() {
                final(load)@.run == old(load)@.run && final(load)@.table == old(load)@.table + 1
            } else {
                final(load)@.run == old(load)@.run + 1 && final(load)@.table == 0
            }
            &&& rows@ matches RowsModel::Directory(entries) ==> old(load)@.merged.with_entries(
                entries,
            ) == Some(final(load)@.merged)
            &&& rows@ matches RowsModel::Ledger(cells) ==> old(load)@.merged.with_cells(cells)
                == Some(final(load)@.merged)
        },
{
    law_loads_take_tables_in_order(old(load)@, rows@);
}

/// A finished load is the forest of the merged rows, or says that they disagree.
pub proof fn law_finished_loads_are_what_was_merged(
    load: BaseLoad,
    forest: Result<Forest, BootstrapExit>,
    next: Option<TableRef>,
    plan: BootstrapPlan,
    fresh: BaseLoad,
)
    requires
        load.wf(),
        call_ensures(BaseLoad::finish, (load,), forest),
        call_ensures(BaseLoad::next_table, (&load,), next),
        call_ensures(BaseLoad::new, (plan,), fresh),
    ensures
        forest matches Ok(made) ==> made@.directory == load@.merged.rows.directory && made@.ledger
            == load@.merged.rows.ledger && made@.wf(),
        forest matches Err(exit) ==> exit is Contradiction,
        load@.merged.rows.wf() ==> forest is Ok,
        next is None <==> load@.run == load@.plan.directory.len() + load@.plan.ledger.len(),
        fresh@.run == 0 && fresh@.table == 0 && fresh@.plan == plan@,
        fresh@.merged.resident_bytes == 0,
        fresh@.merged.rows.directory.dom().len() == 0 && fresh@.merged.rows.ledger.dom().len() == 0,
{
    if load@.merged.rows.wf() {
        crate::engine::forest::law_valid_rows_are_accepted(load@.merged.rows);
    }
}

/// A RUN's facts are replayed into the forest in their order, dated with its coordinate; at
/// the first that contradicts the forest is as the ones before it left it.
pub proof fn law_replayed_facts_fold_in_order(
    forest: &mut Forest,
    batch: BatchId,
    facts: &[OperationFact],
    anomaly: Option<String>,
)
    requires
        call_ensures(fold_replay_facts, (forest, batch, facts), anomaly),
    ensures
        ({
            let said = crate::domain::wal::facts_model(facts@);
            &&& anomaly is None <==> old(forest)@.fold_all(batch, said) is Ok
            &&& anomaly is None ==> old(forest)@.fold_all(batch, said) == Ok::<
                ForestModel,
                FoldContradiction,
            >(final(forest)@)
            &&& anomaly is Some ==> exists|count: int|
                0 <= count < said.len() && #[trigger] old(forest)@.fold_all(batch, said.take(count))
                    == Ok::<ForestModel, FoldContradiction>(final(forest)@)
        }),
{
}

// Checkpoints

/// A delta has exactly the rows by which the snapshot differs: a path's entry where it is
/// new or changed, a stream's record where it is new or changed, and a removal where it
/// is gone.
#[verifier::rlimit(50)]
pub proof fn law_deltas_are_the_differences(
    snapshot: Forest,
    base: Forest,
    delta: ForestDelta,
    uid: u64,
)
    requires
        snapshot.wf(),
        base.wf(),
        call_ensures(Forest::delta_since, (&snapshot, &base), delta),
    ensures
        forall|path: Seq<u8>, entry: DirectoryEntry|
            (exists|i: int|
                0 <= i < delta@.directory.len() && #[trigger] delta@.directory[i] == (path, entry))
                <==> #[trigger] is_entry_of(snapshot@, path, entry) && !is_entry_of(
                base@,
                path,
                entry,
            ),
        forall|i: int|
            0 <= i < delta@.ledger.len() ==> {
                let uid = (#[trigger] delta@.ledger[i]).0.value;
                match delta@.ledger[i].1 {
                    Some(record) => {
                        &&& snapshot@.ledger.dom().contains(uid)
                        &&& snapshot@.ledger[uid] == record
                        &&& !(base@.ledger.dom().contains(uid) && base@.ledger[uid] == record)
                    },
                    None => !snapshot@.ledger.dom().contains(uid) && base@.ledger.dom().contains(
                        uid,
                    ),
                }
            },
        snapshot@.ledger.dom().contains(uid) != base@.ledger.dom().contains(uid) || (
        snapshot@.ledger.dom().contains(uid) && snapshot@.ledger[uid] != base@.ledger[uid])
            ==> exists|i: int|
            0 <= i < delta@.ledger.len() && (#[trigger] delta@.ledger[i]).0.value == uid,
{
    let rows = crate::engine::delta::entries_since(snapshot@.directory, base@.directory);
    let cells = crate::engine::delta::cells_since(snapshot@.ledger, base@.ledger);
    assert forall|path: Seq<u8>, entry: DirectoryEntry|
        (exists|i: int|
            0 <= i < delta@.directory.len() && #[trigger] delta@.directory[i] == (path, entry))
            <==> #[trigger] is_entry_of(snapshot@, path, entry) && !is_entry_of(
            base@,
            path,
            entry,
        ) by {
        if is_entry_of(snapshot@, path, entry) && !is_entry_of(base@, path, entry) {
            assert(rows.dom().contains(path));
            let i = choose|i: int|
                0 <= i < delta@.directory.len() && (#[trigger] delta@.directory[i]).0 == path;
            assert(delta@.directory[i] == (path, entry));
        }
        if exists|i: int|
            0 <= i < delta@.directory.len() && #[trigger] delta@.directory[i] == (path, entry) {
            assert(rows.dom().contains(path) && rows[path] == entry);
        }
    }
    assert forall|i: int| 0 <= i < delta@.ledger.len() implies {
        let uid = (#[trigger] delta@.ledger[i]).0.value;
        match delta@.ledger[i].1 {
            Some(record) => {
                &&& snapshot@.ledger.dom().contains(uid)
                &&& snapshot@.ledger[uid] == record
                &&& !(base@.ledger.dom().contains(uid) && base@.ledger[uid] == record)
            },
            None => !snapshot@.ledger.dom().contains(uid) && base@.ledger.dom().contains(uid),
        }
    } by {
        assert(cells.dom().contains(delta@.ledger[i].0.value));
    }
    if snapshot@.ledger.dom().contains(uid) != base@.ledger.dom().contains(uid) || (
    snapshot@.ledger.dom().contains(uid) && snapshot@.ledger[uid] != base@.ledger[uid]) {
        assert(cells.dom().contains(uid));
    }
}

/// The path has this entry.
pub open spec fn is_entry_of(forest: ForestModel, path: Seq<u8>, entry: DirectoryEntry) -> bool {
    forest.directory.dom().contains(path) && forest.directory[path] == entry
}

/// Rows are charged a thousand and twenty-four bytes in the Directory, two thousand and
/// forty-eight for a record and sixty-four for a removal in the Ledger.
pub proof fn law_rows_are_charged(
    cell: LedgerCell,
    bytes: u64,
    rows: nat,
    cells: Seq<(StreamUid, Option<RecordModel>)>,
)
    requires
        call_ensures(ledger_row_bytes, (&cell,), bytes),
    ensures
        bytes == (if cell is Value {
            2048u64
        } else {
            64u64
        }),
        crate::engine::prepare::directory_weights(rows).len() == rows,
        forall|i: int|
            0 <= i < rows ==> #[trigger] crate::engine::prepare::directory_weights(rows)[i] == 1024,
        crate::engine::prepare::ledger_weights(cells).len() == cells.len(),
        forall|i: int|
            0 <= i < cells.len() ==> #[trigger] crate::engine::prepare::ledger_weights(cells)[i]
                == (if cells[i].1 is Some {
                2048u64
            } else {
                64u64
            }),
{
}

/// A plan cuts rows into tables that follow one another through the last row, each charged
/// two hundred and fifty-six bytes and its rows, at most sixty-four mebibytes, and none
/// could have taken the next row too. Its account is the tables' number and charges.
pub proof fn law_tables_are_cut_at_the_target(
    weights: Vec<u64>,
    plan: Vec<Chunk>,
    account: ChunkAccounting,
    i: int,
)
    requires
        crate::engine::chunks::weights_fit(weights@),
        call_ensures(plan_chunks, (&weights,), plan),
        call_ensures(account_rows, (&weights,), account),
        0 <= i < plan@.len(),
    ensures
        ({
            let start = if i == 0 {
                0
            } else {
                plan@[i - 1].end as int
            };
            &&& start < plan@[i].end <= weights@.len()
            &&& plan@[i].bytes == 256 + crate::engine::chunks::weight_sum(
                weights@.subrange(start, plan@[i].end as int),
            )
            &&& plan@[i].bytes <= 67_108_864
            &&& i == plan@.len() - 1 ==> plan@[i].end == weights@.len()
            &&& i < plan@.len() - 1 ==> plan@[i].end < weights@.len() && plan@[i].bytes
                + weights@[plan@[i].end as int] > 67_108_864
        }),
        account.tables == plan@.len(),
{
    crate::engine::chunks::law_chunks_hold_every_row_once(weights@);
    assert(crate::engine::chunks::chunk_exact(weights@, plan@, i));
    if i < plan@.len() - 1 {
        crate::engine::chunks::law_chunks_are_filled(weights@, i);
    }
}

/// The charge of rows is the sum of their charges.
pub proof fn law_charges_add_up(weights: Seq<u64>, weight: u64, plan: Seq<Chunk>, chunk: Chunk)
    ensures
        crate::engine::chunks::weight_sum(Seq::empty()) == 0,
        crate::engine::chunks::weight_sum(weights.push(weight))
            == crate::engine::chunks::weight_sum(weights) + weight,
        crate::engine::chunks::plan_bytes(Seq::empty()) == 0,
        crate::engine::chunks::plan_bytes(plan.push(chunk)) == crate::engine::chunks::plan_bytes(
            plan,
        ) + chunk.bytes,
{
    assert(weights.push(weight).drop_last() =~= weights);
    assert(plan.push(chunk).drop_last() =~= plan);
}

/// Fresh tables join the source's exactly when each tree then has at most sixteen runs and
/// all tables together are at most a thousand and twenty-four and at most thirty-two
/// gibibytes.
pub proof fn law_deltas_join_within_bounds(
    source: Seal,
    directory: ChunkAccounting,
    ledger: ChunkAccounting,
    selected: bool,
)
    requires
        call_ensures(select_delta, (&source, directory, ledger), selected),
    ensures
        selected <==> {
            &&& source.directory@.len() <= 16 && (directory.tables != 0 ==> source.directory@.len()
                < 16)
            &&& source.ledger@.len() <= 16 && (ledger.tables != 0 ==> source.ledger@.len() < 16)
            &&& source@.tables().len() + directory.tables + ledger.tables <= 1024
            &&& crate::engine::base_load::tables_bytes(source@.tables()) + directory.bytes
                + ledger.bytes <= 34_359_738_368
        },
{
}

/// The successor Seal: the source's partition, one generation later, cut where the
/// checkpoint was, owned by the attempt's claim; each tree has the fresh tables, if there
/// are any, as its newest run before the source's runs, or alone where all was rewritten.
pub proof fn law_successors_are_the_next_generation(
    input: CheckpointInput,
    carries: bool,
    directory: Seq<TableRef>,
    ledger: Seq<TableRef>,
)
    requires
        input.source.generation.value < u64::MAX,
    ensures
        ({
            let successor = crate::engine::prepare::successor_of(input, carries, directory, ledger);
            &&& successor.partition == input.source.partition
            &&& successor.generation.value == input.source.generation.value + 1
            &&& successor.replay matches WalReplayPoint::Through { batch, owner } && batch
                == input.cut && owner.generation == input.attempt.owner_claim
            &&& grows(successor.directory, input.source.directory@, carries, directory)
            &&& grows(successor.ledger, input.source.ledger@, carries, ledger)
        }),
{
}

/// The tree is the carried runs, or none, behind the fresh run, if there is one.
pub open spec fn grows(
    tree: Seq<Seq<TableRef>>,
    source: Seq<Seq<TableRef>>,
    carries: bool,
    fresh: Seq<TableRef>,
) -> bool {
    let first = if fresh.len() > 0 {
        1int
    } else {
        0int
    };
    &&& tree.len() == first + (if carries {
        source.len() as int
    } else {
        0int
    })
    &&& fresh.len() > 0 ==> tree[0] == fresh
    &&& carries ==> forall|i: int| 0 <= i < source.len() ==> tree[first + i] == #[trigger] source[i]
}

/// A checkpoint's tables are born in the successor's generation, under the attempt, with
/// their ordinal and store; its key and reference name the same object.
pub proof fn law_fresh_tables_are_named_by_their_attempt(
    input: CheckpointInput,
    birth: TableBirth,
    ordinal: u32,
    store: StoreKind,
)
    requires
        input.source.generation.value < u64::MAX,
    ensures
        input.birth().partition == input.source.partition,
        input.birth().generation.value == input.source.generation.value + 1,
        input.birth().attempt == input.attempt,
        ({
            let key = birth.key(ordinal as nat, store);
            &&& key.partition == birth.partition
            &&& key.object.store == store
            &&& key.object.fresh.birth_generation == birth.generation
            &&& key.object.fresh.attempt == birth.attempt
            &&& key.object.fresh.ordinal == ordinal
        }),
{
}

/// A prepared checkpoint keeps its source and its snapshot, advances the source's cut to
/// the planned one, and refers to exactly the tables that were handed out, the
/// Directory's before the Ledger's.
pub proof fn law_prepared_checkpoints_are_the_planned(
    input: CheckpointInput,
    cells: CellsModel,
    carries: bool,
    directory: Seq<EncodedTable>,
    ledger: Seq<EncodedTable>,
    prepared: PreparedCheckpoint,
)
    requires
        input.source.generation.value < u64::MAX,
        crate::engine::prepare::is_prepared(input, cells, carries, directory, ledger, prepared),
    ensures
        prepared.source@ == input.source@,
        prepared.snapshot@ == input.snapshot@,
        prepared.successor.partition == input.source.partition,
        prepared.successor.generation.value == input.source.generation.value + 1,
        prepared.successor.replay matches WalReplayPoint::Through { batch, owner } && batch
            == input.cut && owner.generation == input.attempt.owner_claim,
        prepared.encoded_seal.encoded.seal@ == prepared.successor@,
        input.cut.value > (match input.source.replay {
            WalReplayPoint::Genesis => 0,
            WalReplayPoint::Through { batch, .. } => batch.value,
        }),
        directory.len() > 0 ==> {
            let run = prepared.successor.directory@[0];
            run.len() == directory.len() && forall|i: int|
                0 <= i < directory.len() ==> #[trigger] run[i] == directory[i].table
        },
        ledger.len() > 0 ==> {
            let run = prepared.successor.ledger@[0];
            run.len() == ledger.len() && forall|i: int|
                0 <= i < ledger.len() ==> #[trigger] run[i] == ledger[i].table
        },
{
}

/// Preparing a checkpoint fails where its cut does not advance the source's and where the
/// source is the last generation, and nowhere else; what it prepares keeps the source and
/// the snapshot and is the next generation, cut where the checkpoint is.
pub proof fn law_checkpoints_are_prepared<Emit: Fn(EncodedTable) -> bool>(
    input: CheckpointInput,
    emit: Emit,
    prepared: Result<Option<PreparedCheckpoint>, CheckpointContradiction>,
)
    requires
        input.wf(),
        call_ensures(prepare_checkpoint::<Emit>, (input, &emit), prepared),
    ensures
        ({
            let covered = match input.source.replay {
                WalReplayPoint::Genesis => 0,
                WalReplayPoint::Through { batch, .. } => batch.value,
            };
            &&& prepared is Err <==> input.cut.value <= covered || input.source.generation.value
                == u64::MAX
            &&& prepared matches Ok(Some(made)) ==> {
                &&& made.source@ == input.source@
                &&& made.snapshot@ == input.snapshot@
                &&& made.successor.partition == input.source.partition
                &&& made.successor.generation.value == input.source.generation.value + 1
                &&& made.successor.replay matches WalReplayPoint::Through { batch, owner } && batch
                    == input.cut && owner.generation == input.attempt.owner_claim
                &&& made.encoded_seal.encoded.seal@ == made.successor@
            }
        }),
{
    if let Ok(Some(made)) = prepared {
        let (cells, carries, directory, ledger) = choose|
            cells: CellsModel,
            carries: bool,
            directory: Seq<EncodedTable>,
            ledger: Seq<EncodedTable>,
        | #[trigger]
            crate::engine::prepare::is_prepared(input, cells, carries, directory, ledger, made)
                && crate::engine::prepare::all_taken(emit, directory + ledger);
        law_prepared_checkpoints_are_the_planned(input, cells, carries, directory, ledger, made);
    }
}

/// The install of a prepared checkpoint is of its own Seals and snapshot.
pub proof fn law_installs_are_of_what_was_prepared(
    prepared: PreparedCheckpoint,
    install: CheckpointInstall,
)
    requires
        call_ensures(PreparedCheckpoint::into_install, (prepared,), install),
    ensures
        install.source == prepared.source,
        install.successor == prepared.successor,
        install.snapshot == prepared.snapshot,
{
}

/// A rewrite stores every row of the snapshot.
pub proof fn law_rewrites_store_everything(
    snapshot: Forest,
    cells: ForestDelta,
    path: Seq<u8>,
    uid: u64,
)
    requires
        snapshot.wf(),
        call_ensures(Forest::checkpoint_cells, (&snapshot,), cells),
    ensures
        snapshot@.directory.dom().contains(path) ==> exists|i: int|
            0 <= i < cells@.directory.len() && (#[trigger] cells@.directory[i]) == (
                path,
                snapshot@.directory[path],
            ),
        snapshot@.ledger.dom().contains(uid) ==> exists|i: int|
            0 <= i < cells@.ledger.len() && (#[trigger] cells@.ledger[i]) == (
                StreamUid { value: uid },
                Some(snapshot@.ledger[uid]),
            ),
        forall|i: int|
            0 <= i < cells@.ledger.len() ==> (#[trigger] cells@.ledger[i]).1 is Some,
{
    let none = ForestModel::empty();
    let rows = crate::engine::delta::entries_since(snapshot@.directory, none.directory);
    let records = crate::engine::delta::cells_since(snapshot@.ledger, none.ledger);
    if snapshot@.directory.dom().contains(path) {
        assert(rows.dom().contains(path));
        let i = choose|i: int|
            0 <= i < cells@.directory.len() && (#[trigger] cells@.directory[i]).0 == path;
        assert(cells@.directory[i] == (path, snapshot@.directory[path]));
    }
    if snapshot@.ledger.dom().contains(uid) {
        assert(records.dom().contains(uid));
        let i = choose|i: int|
            0 <= i < cells@.ledger.len() && (#[trigger] cells@.ledger[i]).0.value == uid;
        assert(cells@.ledger[i] == (StreamUid { value: uid }, Some(snapshot@.ledger[uid])));
    }
    assert forall|i: int| 0 <= i < cells@.ledger.len() implies (
    #[trigger] cells@.ledger[i]).1 is Some by {
        assert(records.dom().contains(cells@.ledger[i].0.value));
    }
}

// Collection

/// A collection covers the coordinates after the source's cut through the successor's.
pub proof fn law_collections_cover_the_advance(
    source: Seal,
    successor: Seal,
    plan: (crate::domain::partition::PartitionId, BatchId, BatchId),
)
    requires
        source.wf(),
        successor.wf(),
        crate::engine::collection::advances(source@, successor@),
        call_ensures(plan_wal_collection, (&source, &successor), plan),
    ensures
        plan.0 == source.partition,
        plan.1.value == (match source.replay {
            WalReplayPoint::Genesis => 1,
            WalReplayPoint::Through { batch, .. } => batch.value + 1,
        }),
        successor.replay matches WalReplayPoint::Through { batch, .. } && plan.2 == batch,
        source.partition == successor.partition,
        successor.generation.value == source.generation.value + 1,
{
}

/// The steps of a collection: a RUN that was read is deleted as it was observed; a FENCE,
/// a gap and a deleted RUN lead to the next coordinate, and the last one to the tables,
/// which are deleted one after the other; a failure ends it.
pub proof fn law_collection_steps(collection: Collection, event: CollectionEvent)
    requires
        collection.wf(),
        collection.answers(event),
    ensures
        match (collection.phase, event) {
            (CollectionPhase::ReadWal { batch }, CollectionEvent::WalRead(Ok(Some(observed)))) => if observed.object@.facts is Some {
                collection.after(event) matches CollectionPhase::DeleteRun { run } && run.batch
                    == batch && run.validator == observed.validator
            } else {
                goes_past(collection, batch, collection.after(event))
            },
            (CollectionPhase::ReadWal { batch }, CollectionEvent::WalRead(Ok(None))) => goes_past(
                collection,
                batch,
                collection.after(event),
            ),
            (CollectionPhase::DeleteRun { run }, CollectionEvent::Deleted(Ok(_))) => goes_past(
                collection,
                run.batch,
                collection.after(event),
            ),
            (CollectionPhase::DeleteTable { at }, CollectionEvent::Deleted(Ok(_))) => if at + 1
                < collection.tables@.len() {
                collection.after(event) matches CollectionPhase::DeleteTable { at: next } && next
                    == at + 1
            } else {
                collection.after(event) is Done
            },
            _ => collection.after(event) is Done,
        },
{
    assert(collection.tables@.len() == collection.tables.len());
}

/// The phase is the next coordinate's read, or after the last one the first table's
/// delete, or the end where there is none.
pub open spec fn goes_past(
    collection: Collection,
    batch: BatchId,
    phase: CollectionPhase,
) -> bool {
    if batch.value < collection.cut.value {
        phase matches CollectionPhase::ReadWal { batch: next } && next.value == batch.value + 1
    } else if collection.tables@.len() > 0 {
        phase matches CollectionPhase::DeleteTable { at } && at == 0
    } else {
        phase is Done
    }
}

} // verus!
