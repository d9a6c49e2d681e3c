//! What the tables that a Seal selects hold together.

use vstd::prelude::*;

use crate::domain::bounds::PARTITION_PATH_OCCUPANCIES_MAX_V2;
use crate::domain::candidate::{EncodedTable, RowsModel};
use crate::domain::coordinate::StreamUid;
use crate::domain::directory::DirectoryEntry;
use crate::domain::ledger::RecordModel;
use crate::domain::protocol::ProtocolText;
use crate::domain::seal::{SealModel, TableRef};
use crate::domain::table::StoreKind;
use crate::engine::base_load::{LoadModel, MergedModel};
use crate::engine::bootstrap_exit::ExitModel;
use crate::engine::checkpoint::CheckpointInput;
use crate::engine::chunks::Chunk;
use crate::engine::delta::CellsModel;
use crate::engine::forest::ForestModel;
use crate::engine::prepare::PreparedCheckpoint;
use crate::engine::store::StoreErrorModel;

verus! {

/// The Directory rows of a run, table after table.
pub open spec fn run_entries(run: Seq<TableRef>, held: spec_fn(TableRef) -> RowsModel) -> Seq<
    (Seq<u8>, DirectoryEntry),
>
    decreases run.len(),
{
    if run.len() == 0 {
        Seq::empty()
    } else {
        run_entries(run.drop_last(), held) + held(run.last())->Directory_0
    }
}

/// The Ledger rows of a run, table after table.
pub open spec fn run_cells(run: Seq<TableRef>, held: spec_fn(TableRef) -> RowsModel) -> Seq<
    (StreamUid, Option<RecordModel>),
>
    decreases run.len(),
{
    if run.len() == 0 {
        Seq::empty()
    } else {
        run_cells(run.drop_last(), held) + held(run.last())->Ledger_0
    }
}

/// Every table of the run holds Directory rows, and the rows ascend through the run.
pub open spec fn run_holds_entries(
    run: Seq<TableRef>,
    held: spec_fn(TableRef) -> RowsModel,
) -> bool {
    &&& forall|t: int|
        0 <= t < run.len() ==> held(#[trigger] run[t]) is Directory && held(run[t]).wf()
    &&& crate::domain::sst_directory::directory_ordered(run_entries(run, held))
}

/// Every table of the run holds Ledger rows of lifetime occupancies, and the rows
/// ascend through the run.
pub open spec fn run_holds_cells(run: Seq<TableRef>, held: spec_fn(TableRef) -> RowsModel) -> bool {
    &&& forall|t: int|
        0 <= t < run.len() ==> held(#[trigger] run[t]) is Ledger && held(run[t]).wf()
    &&& crate::domain::sst_ledger::ledger_ordered(run_cells(run, held))
    &&& forall|i: int|
        0 <= i < run_cells(run, held).len() ==> (#[trigger] run_cells(run, held)[i]).0.value
            <= PARTITION_PATH_OCCUPANCIES_MAX_V2
}

/// Entries with rows put in place of what their paths held.
pub open spec fn with_rows(
    entries: Map<Seq<u8>, DirectoryEntry>,
    rows: Seq<(Seq<u8>, DirectoryEntry)>,
) -> Map<Seq<u8>, DirectoryEntry>
    decreases rows.len(),
{
    if rows.len() == 0 {
        entries
    } else {
        with_rows(entries, rows.drop_last()).insert(rows.last().0, rows.last().1)
    }
}

/// Records with cells laid over them, in order.
pub open spec fn with_cells(
    records: Map<u64, RecordModel>,
    cells: Seq<(StreamUid, Option<RecordModel>)>,
) -> Map<u64, RecordModel>
    decreases cells.len(),
{
    if cells.len() == 0 {
        records
    } else {
        let before = with_cells(records, cells.drop_last());
        match cells.last().1 {
            Some(record) => before.insert(cells.last().0.value, record),
            None => before.remove(cells.last().0.value),
        }
    }
}

/// What the runs of a Directory tree, newest first, come to: the newest row wins.
pub open spec fn tree_entries(
    tree: Seq<Seq<TableRef>>,
    held: spec_fn(TableRef) -> RowsModel,
) -> Map<Seq<u8>, DirectoryEntry>
    decreases tree.len(),
{
    if tree.len() == 0 {
        Map::empty()
    } else {
        with_rows(tree_entries(tree.drop_first(), held), run_entries(tree[0], held))
    }
}

/// What the runs of a Ledger tree, newest first, come to: the newest cell wins.
pub open spec fn tree_records(
    tree: Seq<Seq<TableRef>>,
    held: spec_fn(TableRef) -> RowsModel,
) -> Map<u64, RecordModel>
    decreases tree.len(),
{
    if tree.len() == 0 {
        Map::empty()
    } else {
        with_cells(tree_records(tree.drop_first(), held), run_cells(tree[0], held))
    }
}

/// The tables that a Seal selects, holding what `held` says of each, store `forest`.
pub open spec fn stores(
    seal: SealModel,
    held: spec_fn(TableRef) -> RowsModel,
    forest: ForestModel,
) -> bool {
    &&& forall|r: int|
        0 <= r < seal.directory.len() ==> run_holds_entries(#[trigger] seal.directory[r], held)
    &&& forall|r: int|
        0 <= r < seal.ledger.len() ==> run_holds_cells(#[trigger] seal.ledger[r], held)
    &&& tree_entries(seal.directory, held) == forest.directory
    &&& tree_records(seal.ledger, held) == forest.ledger
}

/// A Seal without tables stores the empty forest.
pub proof fn law_genesis_stores_nothing(seal: SealModel, held: spec_fn(TableRef) -> RowsModel)
    requires
        seal.directory.len() == 0,
        seal.ledger.len() == 0,
    ensures
        stores(seal, held, ForestModel::empty()),
{
}

/// Claiming the next generation stores the same forest.
pub proof fn law_claim_stores_the_same(
    seal: SealModel,
    held: spec_fn(TableRef) -> RowsModel,
    forest: ForestModel,
)
    requires
        stores(seal, held, forest),
    ensures
        stores(seal.claimed(), held, forest),
{
}

/// What a path holds after rows: its own row, or what it held before.
proof fn lemma_with_rows_at(
    entries: Map<Seq<u8>, DirectoryEntry>,
    rows: Seq<(Seq<u8>, DirectoryEntry)>,
    path: Seq<u8>,
)
    requires
        crate::domain::sst_directory::directory_ordered(rows),
    ensures
        forall|i: int|
            0 <= i < rows.len() && (#[trigger] rows[i]).0 == path ==> with_rows(
                entries,
                rows,
            ).dom().contains(path) && with_rows(entries, rows)[path] == rows[i].1,
        (forall|i: int| 0 <= i < rows.len() ==> (#[trigger] rows[i]).0 != path) ==> with_rows(
            entries,
            rows,
        ).dom().contains(path) == entries.dom().contains(path) && with_rows(entries, rows)[path]
            == entries[path],
    decreases rows.len(),
{
    if rows.len() > 0 {
        let rest = rows.drop_last();
        let last = rows.len() - 1;
        assert forall|i: int, j: int| 0 <= i < j < rest.len() implies crate::domain::text::bytes_less(
            (#[trigger] rest[i]).0,
            (#[trigger] rest[j]).0,
        ) by {
            assert(rest[i] == rows[i] && rest[j] == rows[j]);
        }
        lemma_with_rows_at(entries, rest, path);
        assert forall|i: int| 0 <= i < last implies (#[trigger] rows[i]).0 != rows[last].0 by {
            assert(crate::domain::text::bytes_less(rows[i].0, rows[last].0));
            crate::domain::text::lemma_bytes_less_asymmetric(rows[i].0, rows[last].0);
        }
        assert forall|i: int| 0 <= i < rest.len() implies rest[i] == #[trigger] rows[i] by {}
        if rows[last].0 != path {
            assert((forall|i: int| 0 <= i < rest.len() ==> (#[trigger] rest[i]).0 != path)
                <== (forall|i: int| 0 <= i < rows.len() ==> (#[trigger] rows[i]).0 != path));
        }
    }
}

/// What a stream holds after cells: its own cell, or what it held before.
proof fn lemma_with_cells_at(
    records: Map<u64, RecordModel>,
    cells: Seq<(StreamUid, Option<RecordModel>)>,
    uid: u64,
)
    requires
        crate::domain::sst_ledger::ledger_ordered(cells),
    ensures
        forall|i: int|
            0 <= i < cells.len() && (#[trigger] cells[i]).0.value == uid
                ==> crate::engine::delta::cell_of(with_cells(records, cells), uid) == cells[i].1,
        (forall|i: int| 0 <= i < cells.len() ==> (#[trigger] cells[i]).0.value != uid)
            ==> crate::engine::delta::cell_of(with_cells(records, cells), uid)
            == crate::engine::delta::cell_of(records, uid),
    decreases cells.len(),
{
    if cells.len() > 0 {
        let rest = cells.drop_last();
        let last = cells.len() - 1;
        assert forall|i: int, j: int| 0 <= i < j < rest.len() implies (
        #[trigger] rest[i]).0.value < (#[trigger] rest[j]).0.value by {
            assert(rest[i] == cells[i] && rest[j] == cells[j]);
        }
        lemma_with_cells_at(records, rest, uid);
        assert forall|i: int| 0 <= i < last implies (#[trigger] cells[i]).0.value
            != cells[last].0.value by {
            assert(cells[i].0.value < cells[last].0.value);
        }
        assert forall|i: int| 0 <= i < rest.len() implies rest[i] == #[trigger] cells[i] by {}
        if cells[last].0.value != uid {
            assert((forall|i: int| 0 <= i < rest.len() ==> (#[trigger] rest[i]).0.value != uid)
                <== (forall|i: int| 0 <= i < cells.len() ==> (#[trigger] cells[i]).0.value != uid));
        }
    }
}

/// Rows that list changed entries, put over a base, give the base with the changes.
proof fn lemma_with_listed_rows(
    base: Map<Seq<u8>, DirectoryEntry>,
    rows: Seq<(Seq<u8>, DirectoryEntry)>,
    changes: Map<Seq<u8>, DirectoryEntry>,
)
    requires
        crate::engine::ordered::directory_lists(rows, changes),
    ensures
        with_rows(base, rows) == base.union_prefer_right(changes),
{
    let after = base.union_prefer_right(changes);
    let over = with_rows(base, rows);
    assert forall|path: Seq<u8>| #[trigger] over.dom().contains(path) == after.dom().contains(path)
        && (after.dom().contains(path) ==> over[path] == after[path]) by {
        lemma_with_rows_at(base, rows, path);
        if changes.dom().contains(path) {
            let i = choose|i: int| 0 <= i < rows.len() && (#[trigger] rows[i]).0 == path;
            assert(over[path] == rows[i].1);
        } else {
            assert forall|i: int| 0 <= i < rows.len() implies (#[trigger] rows[i]).0 != path by {}
        }
    }
    assert(over.dom() =~= after.dom());
    assert(over =~= after);
}

/// Cells that list changed records, laid over a base, give the base with the changes.
proof fn lemma_with_listed_cells(
    base: Map<u64, RecordModel>,
    rows: Seq<(StreamUid, Option<RecordModel>)>,
    changes: Map<u64, Option<RecordModel>>,
)
    requires
        crate::engine::delta::cells_list(rows, changes),
    ensures
        with_cells(base, rows) == crate::engine::delta::overlaid(base, changes),
{
    let after = crate::engine::delta::overlaid(base, changes);
    let over = with_cells(base, rows);
    assert forall|uid: u64| #[trigger] over.dom().contains(uid) == after.dom().contains(uid) && (
    after.dom().contains(uid) ==> over[uid] == after[uid]) by {
        lemma_with_cells_at(base, rows, uid);
        if changes.dom().contains(uid) {
            let i = choose|i: int| 0 <= i < rows.len() && (#[trigger] rows[i]).0.value == uid;
            assert(crate::engine::delta::cell_of(over, uid) == rows[i].1);
        } else {
            assert forall|i: int| 0 <= i < rows.len() implies (#[trigger] rows[i]).0.value != uid by {
            }
            assert(crate::engine::delta::cell_of(over, uid) == crate::engine::delta::cell_of(
                base,
                uid,
            ));
        }
    }
    assert(over.dom() =~= after.dom());
    assert(over =~= after);
}

/// Reading an emitted table's bytes at its key gives what `held` says of it.
pub open spec fn reads_as(
    table: EncodedTable,
    held: spec_fn(TableRef) -> RowsModel,
    accepts: spec_fn(ProtocolText) -> bool,
) -> bool {
    crate::engine::store::spec_read_table(
        table.key,
        table.table,
        Some(crate::domain::candidate::shared_bytes(table.bytes)),
        accepts,
    ) == Ok::<_, StoreErrorModel>(held(table.table))
}

/// The grammar accepts every path and every record of a forest.
pub open spec fn forest_accepted(
    forest: ForestModel,
    accepts: spec_fn(ProtocolText) -> bool,
) -> bool {
    &&& forall|path: Seq<u8>| #[trigger]
        forest.directory.dom().contains(path)
            ==> crate::domain::sst_directory::stored_path_accepted(path, accepts)
    &&& forall|uid: u64| #[trigger]
        forest.ledger.dom().contains(uid) ==> crate::domain::sst_ledger::cell_accepted(
            Some(forest.ledger[uid]),
            accepts,
        )
}

/// Rows of a delta are rows that the grammar accepts where it accepts the snapshot.
proof fn lemma_delta_accepted(
    cells: CellsModel,
    snapshot: ForestModel,
    base: ForestModel,
    accepts: spec_fn(ProtocolText) -> bool,
)
    requires
        crate::engine::delta::is_delta(cells, snapshot, base),
        forest_accepted(snapshot, accepts),
    ensures
        forall|i: int|
            0 <= i < cells.directory.len() ==> crate::domain::sst_directory::stored_path_accepted(
                (#[trigger] cells.directory[i]).0,
                accepts,
            ),
        forall|i: int|
            0 <= i < cells.ledger.len() ==> crate::domain::sst_ledger::cell_accepted(
                (#[trigger] cells.ledger[i]).1,
                accepts,
            ),
{
    let entries = crate::engine::delta::entries_since(snapshot.directory, base.directory);
    let changed = crate::engine::delta::cells_since(snapshot.ledger, base.ledger);
    assert forall|i: int|
        0 <= i < cells.directory.len() implies crate::domain::sst_directory::stored_path_accepted(
        (#[trigger] cells.directory[i]).0,
        accepts,
    ) by {
        assert(entries.dom().contains(cells.directory[i].0));
        assert(snapshot.directory.dom().contains(cells.directory[i].0));
    }
    assert forall|i: int|
        0 <= i < cells.ledger.len() implies crate::domain::sst_ledger::cell_accepted(
        (#[trigger] cells.ledger[i]).1,
        accepts,
    ) by {
        let uid = cells.ledger[i].0.value;
        assert(changed.dom().contains(uid));
        if snapshot.ledger.dom().contains(uid) {
            assert(crate::domain::sst_ledger::cell_accepted(Some(snapshot.ledger[uid]), accepts));
        }
    }
}

/// The rows of tables that hold planned chunks are the rows that were cut.
proof fn lemma_directory_chunks_join(
    tables: Seq<EncodedTable>,
    held: spec_fn(TableRef) -> RowsModel,
    rows: Seq<(Seq<u8>, DirectoryEntry)>,
    plan: Seq<Chunk>,
    count: int,
)
    requires
        0 <= count <= tables.len() == plan.len(),
        forall|i: int|
            0 <= i < plan.len() ==> 0 <= #[trigger] crate::engine::chunks::chunk_start(plan, i)
                < plan[i].end <= rows.len(),
        forall|i: int|
            0 <= i < tables.len() ==> held((#[trigger] tables[i]).table) == RowsModel::Directory(
                crate::engine::chunks::chunk_rows(rows, plan, i),
            ),
    ensures
        run_entries(crate::engine::prepare::references(tables.take(count)), held) == rows.take(
            crate::engine::chunks::chunk_start(plan, count),
        ),
    decreases count,
{
    let run = crate::engine::prepare::references(tables.take(count));
    if count == 0 {
        assert(rows.take(0) =~= Seq::empty());
    } else {
        lemma_directory_chunks_join(tables, held, rows, plan, count - 1);
        assert(run.drop_last() =~= crate::engine::prepare::references(tables.take(count - 1)));
        assert(run.last() == tables[count - 1].table);
        let start = crate::engine::chunks::chunk_start(plan, count - 1);
        assert(crate::engine::chunks::chunk_start(plan, count) == plan[count - 1].end);
        assert(rows.take(start) + rows.subrange(start, plan[count - 1].end as int) =~= rows.take(
            plan[count - 1].end as int,
        ));
    }
}

proof fn lemma_ledger_chunks_join(
    tables: Seq<EncodedTable>,
    held: spec_fn(TableRef) -> RowsModel,
    rows: Seq<(StreamUid, Option<RecordModel>)>,
    plan: Seq<Chunk>,
    count: int,
)
    requires
        0 <= count <= tables.len() == plan.len(),
        forall|i: int|
            0 <= i < plan.len() ==> 0 <= #[trigger] crate::engine::chunks::chunk_start(plan, i)
                < plan[i].end <= rows.len(),
        forall|i: int|
            0 <= i < tables.len() ==> held((#[trigger] tables[i]).table) == RowsModel::Ledger(
                crate::engine::chunks::chunk_rows(rows, plan, i),
            ),
    ensures
        run_cells(crate::engine::prepare::references(tables.take(count)), held) == rows.take(
            crate::engine::chunks::chunk_start(plan, count),
        ),
    decreases count,
{
    let run = crate::engine::prepare::references(tables.take(count));
    if count == 0 {
        assert(rows.take(0) =~= Seq::empty());
    } else {
        lemma_ledger_chunks_join(tables, held, rows, plan, count - 1);
        assert(run.drop_last() =~= crate::engine::prepare::references(tables.take(count - 1)));
        assert(run.last() == tables[count - 1].table);
        let start = crate::engine::chunks::chunk_start(plan, count - 1);
        assert(crate::engine::chunks::chunk_start(plan, count) == plan[count - 1].end);
        assert(rows.take(start) + rows.subrange(start, plan[count - 1].end as int) =~= rows.take(
            plan[count - 1].end as int,
        ));
    }
}

/// The fresh Directory run of a checkpoint holds exactly its rows.
proof fn lemma_fresh_directory(
    input: CheckpointInput,
    rows: Seq<(Seq<u8>, DirectoryEntry)>,
    tables: Seq<EncodedTable>,
    held: spec_fn(TableRef) -> RowsModel,
    accepts: spec_fn(ProtocolText) -> bool,
)
    requires
        input.wf(),
        input.source.generation.value < u64::MAX,
        rows.len() <= PARTITION_PATH_OCCUPANCIES_MAX_V2,
        crate::domain::sst_directory::directory_ordered(rows),
        crate::domain::sst_directory::paths_fit(rows),
        crate::domain::sst_directory::directory_rows_wf(rows),
        forall|i: int|
            0 <= i < rows.len() ==> crate::domain::sst_directory::stored_path_accepted(
                (#[trigger] rows[i]).0,
                accepts,
            ),
        crate::engine::prepare::directory_emitted(tables, input.birth(), 0, rows),
        tables.len() == crate::engine::chunks::chunk_plan(
            crate::engine::prepare::directory_weights(rows.len()),
        ).len(),
        forall|i: int| 0 <= i < tables.len() ==> reads_as(#[trigger] tables[i], held, accepts),
    ensures
        run_entries(crate::engine::prepare::references(tables), held) == rows,
        run_holds_entries(crate::engine::prepare::references(tables), held),
        (tables.len() == 0) == (rows.len() == 0),
{
    let weights = crate::engine::prepare::directory_weights(rows.len());
    let plan = crate::engine::chunks::chunk_plan(weights);
    crate::engine::prepare::lemma_directory_weights(rows.len());
    crate::engine::chunks::law_chunks_hold_every_row_once(weights);
    assert forall|i: int| 0 <= i < tables.len() implies held((#[trigger] tables[i]).table)
        == RowsModel::Directory(crate::engine::chunks::chunk_rows(rows, plan, i)) && held(
        tables[i].table,
    ).wf() by {
        let table = tables[i];
        let chunk = crate::engine::chunks::chunk_rows(rows, plan, i);
        let start = crate::engine::chunks::chunk_start(plan, i);
        crate::engine::prepare::lemma_directory_chunk(rows, i);
        assert(crate::engine::prepare::holds_directory(
            table,
            input.birth().key((0 + i) as nat, StoreKind::Directory),
            chunk,
        ));
        assert forall|a: int| 0 <= a < chunk.len() implies #[trigger] chunk[a] == rows[start + a] by {
        }
        assert(crate::domain::sst_directory::directory_rows_wf(chunk)) by {
            assert forall|a: int| 0 <= a < chunk.len() implies (#[trigger] chunk[a]).1.wf()
                && crate::domain::protocol::path_fits(chunk[a].0) by {
                assert(rows[start + a].1.wf());
            }
        }
        assert forall|a: int|
            0 <= a < chunk.len() implies crate::domain::sst_directory::stored_path_accepted(
            (#[trigger] chunk[a]).0,
            accepts,
        ) by {
            assert(crate::domain::sst_directory::stored_path_accepted(rows[start + a].0, accepts));
        }
        crate::domain::sst_directory::law_directory_sst_round_trips(
            table.key,
            chunk,
            crate::domain::candidate::shared_bytes(table.bytes),
            accepts,
        );
        assert(reads_as(table, held, accepts));
    }
    assert forall|i: int| 0 <= i < plan.len() implies 0
        <= #[trigger] crate::engine::chunks::chunk_start(plan, i) < plan[i].end <= rows.len() by {
        assert(crate::engine::chunks::chunk_exact(weights, plan, i));
    }
    lemma_directory_chunks_join(tables, held, rows, plan, tables.len() as int);
    assert(tables.take(tables.len() as int) =~= tables);
    assert(rows.take(rows.len() as int) =~= rows);
    let run = crate::engine::prepare::references(tables);
    assert forall|t: int| 0 <= t < run.len() implies held(#[trigger] run[t]) is Directory && held(
        run[t],
    ).wf() by {
        assert(run[t] == tables[t].table);
    }
}

/// The fresh Ledger run of a checkpoint holds exactly its cells.
proof fn lemma_fresh_ledger(
    input: CheckpointInput,
    first: nat,
    rows: Seq<(StreamUid, Option<RecordModel>)>,
    tables: Seq<EncodedTable>,
    held: spec_fn(TableRef) -> RowsModel,
    accepts: spec_fn(ProtocolText) -> bool,
)
    requires
        input.wf(),
        input.source.generation.value < u64::MAX,
        rows.len() <= PARTITION_PATH_OCCUPANCIES_MAX_V2,
        crate::domain::sst_ledger::ledger_ordered(rows),
        crate::domain::sst_ledger::cells_fit(rows),
        crate::domain::sst_ledger::ledger_rows_wf(rows),
        forall|i: int|
            0 <= i < rows.len() ==> crate::domain::sst_ledger::cell_accepted(
                (#[trigger] rows[i]).1,
                accepts,
            ),
        forall|i: int|
            0 <= i < rows.len() ==> (#[trigger] rows[i]).0.value
                <= PARTITION_PATH_OCCUPANCIES_MAX_V2,
        crate::engine::prepare::ledger_emitted(tables, input.birth(), first, rows),
        tables.len() == crate::engine::chunks::chunk_plan(
            crate::engine::prepare::ledger_weights(rows),
        ).len(),
        forall|i: int| 0 <= i < tables.len() ==> reads_as(#[trigger] tables[i], held, accepts),
    ensures
        run_cells(crate::engine::prepare::references(tables), held) == rows,
        run_holds_cells(crate::engine::prepare::references(tables), held),
        (tables.len() == 0) == (rows.len() == 0),
{
    let weights = crate::engine::prepare::ledger_weights(rows);
    let plan = crate::engine::chunks::chunk_plan(weights);
    crate::engine::prepare::lemma_ledger_weights(rows);
    crate::engine::chunks::law_chunks_hold_every_row_once(weights);
    assert forall|i: int| 0 <= i < tables.len() implies held((#[trigger] tables[i]).table)
        == RowsModel::Ledger(crate::engine::chunks::chunk_rows(rows, plan, i)) && held(
        tables[i].table,
    ).wf() by {
        let table = tables[i];
        let chunk = crate::engine::chunks::chunk_rows(rows, plan, i);
        let start = crate::engine::chunks::chunk_start(plan, i);
        crate::engine::prepare::lemma_ledger_chunk(rows, i);
        assert(crate::engine::prepare::holds_ledger(
            table,
            input.birth().key((first + i) as nat, StoreKind::Ledger),
            chunk,
        ));
        assert forall|a: int| 0 <= a < chunk.len() implies #[trigger] chunk[a] == rows[start + a] by {
        }
        assert(crate::domain::sst_ledger::ledger_rows_wf(chunk)) by {
            assert forall|a: int| 0 <= a < chunk.len() implies (#[trigger] chunk[a]).0.wf() && (
            chunk[a].1 matches Some(record) ==> record.wf()) by {
                assert(rows[start + a].0.wf());
            }
        }
        assert forall|a: int|
            0 <= a < chunk.len() implies crate::domain::sst_ledger::cell_accepted(
            (#[trigger] chunk[a]).1,
            accepts,
        ) by {
            assert(crate::domain::sst_ledger::cell_accepted(rows[start + a].1, accepts));
        }
        crate::domain::sst_ledger::law_ledger_sst_round_trips(
            table.key,
            chunk,
            crate::domain::candidate::shared_bytes(table.bytes),
            accepts,
        );
        assert(reads_as(table, held, accepts));
    }
    assert forall|i: int| 0 <= i < plan.len() implies 0
        <= #[trigger] crate::engine::chunks::chunk_start(plan, i) < plan[i].end <= rows.len() by {
        assert(crate::engine::chunks::chunk_exact(weights, plan, i));
    }
    lemma_ledger_chunks_join(tables, held, rows, plan, tables.len() as int);
    assert(tables.take(tables.len() as int) =~= tables);
    assert(rows.take(rows.len() as int) =~= rows);
    let run = crate::engine::prepare::references(tables);
    assert forall|t: int| 0 <= t < run.len() implies held(#[trigger] run[t]) is Ledger && held(
        run[t],
    ).wf() by {
        assert(run[t] == tables[t].table);
    }
}

/// A published checkpoint stores its snapshot: where the source stores the base, no
/// path of the base has left the snapshot, and reading each emitted table gives what
/// `held` says of it, the successor stores the snapshot.
pub proof fn law_checkpoint_stores_the_snapshot(
    input: CheckpointInput,
    cells: CellsModel,
    carries: bool,
    directory: Seq<EncodedTable>,
    ledger: Seq<EncodedTable>,
    prepared: PreparedCheckpoint,
    held: spec_fn(TableRef) -> RowsModel,
    accepts: spec_fn(ProtocolText) -> bool,
)
    requires
        input.wf(),
        input.source.generation.value < u64::MAX,
        crate::engine::prepare::is_prepared(input, cells, carries, directory, ledger, prepared),
        input.base@.directory.dom().subset_of(input.snapshot@.directory.dom()),
        stores(input.source@, held, input.base@),
        forest_accepted(input.snapshot@, accepts),
        forall|i: int| 0 <= i < directory.len() ==> reads_as(#[trigger] directory[i], held, accepts),
        forall|i: int| 0 <= i < ledger.len() ==> reads_as(#[trigger] ledger[i], held, accepts),
    ensures
        stores(prepared.successor@, held, input.snapshot@),
{
    let source = input.source@;
    let base = if carries {
        input.base@
    } else {
        ForestModel::empty()
    };
    let snapshot = input.snapshot@;
    ForestModel::law_empty_is_valid();
    crate::engine::prepare::lemma_delta_fits(cells, snapshot, base);
    lemma_delta_accepted(cells, snapshot, base, accepts);
    lemma_fresh_directory(input, cells.directory, directory, held, accepts);
    lemma_fresh_ledger(input, directory.len(), cells.ledger, ledger, held, accepts);
    crate::engine::delta::law_delta_over_base_is_the_snapshot(base, snapshot);
    lemma_with_listed_rows(
        base.directory,
        cells.directory,
        crate::engine::delta::entries_since(snapshot.directory, base.directory),
    );
    lemma_with_listed_cells(
        base.ledger,
        cells.ledger,
        crate::engine::delta::cells_since(snapshot.ledger, base.ledger),
    );
    let successor = prepared.successor@;
    let old_directory = if carries {
        source.directory
    } else {
        Seq::<Seq<TableRef>>::empty()
    };
    let old_ledger = if carries {
        source.ledger
    } else {
        Seq::<Seq<TableRef>>::empty()
    };
    assert(tree_entries(old_directory, held) =~= base.directory);
    assert(tree_records(old_ledger, held) =~= base.ledger);
    if directory.len() > 0 {
        assert(successor.directory.drop_first() =~= old_directory);
    }
    if ledger.len() > 0 {
        assert(successor.ledger.drop_first() =~= old_ledger);
    }
    assert forall|r: int| 0 <= r < successor.directory.len() implies run_holds_entries(
        #[trigger] successor.directory[r],
        held,
    ) by {
        if directory.len() == 0 {
            assert(successor.directory[r] == old_directory[r]);
        } else if r > 0 {
            assert(successor.directory[r] == old_directory[r - 1]);
        }
    }
    assert forall|r: int| 0 <= r < successor.ledger.len() implies run_holds_cells(
        #[trigger] successor.ledger[r],
        held,
    ) by {
        if ledger.len() == 0 {
            assert(successor.ledger[r] == old_ledger[r]);
        } else if r > 0 {
            assert(successor.ledger[r] == old_ledger[r - 1]);
        }
    }
}

/// The loading after at most so many tables, each holding what `held` says of it.
pub open spec fn loaded(
    load: LoadModel,
    held: spec_fn(TableRef) -> RowsModel,
    tables: nat,
) -> Result<LoadModel, ExitModel>
    decreases tables,
{
    match load.next() {
        None => Ok(load),
        Some(table) => if tables == 0 {
            Ok(load)
        } else {
            match load.merge(held(table)) {
                Ok(after) => loaded(after, held, (tables - 1) as nat),
                Err(exit) => Err(exit),
            }
        },
    }
}

/// Rows only add paths.
proof fn lemma_with_rows_grows(
    entries: Map<Seq<u8>, DirectoryEntry>,
    rows: Seq<(Seq<u8>, DirectoryEntry)>,
)
    ensures
        entries.dom().subset_of(with_rows(entries, rows).dom()),
        forall|i: int|
            0 <= i < rows.len() ==> with_rows(entries, rows).dom().contains(
                (#[trigger] rows[i]).0,
            ),
        forall|path: Seq<u8>| #[trigger]
            with_rows(entries, rows).dom().contains(path) ==> entries.dom().contains(path)
                || exists|i: int| 0 <= i < rows.len() && (#[trigger] rows[i]).0 == path,
    decreases rows.len(),
{
    if rows.len() > 0 {
        let rest = rows.drop_last();
        lemma_with_rows_grows(entries, rest);
        assert forall|i: int| 0 <= i < rows.len() implies with_rows(entries, rows).dom().contains(
            (#[trigger] rows[i]).0,
        ) by {
            if i < rest.len() {
                assert(rest[i] == rows[i]);
            }
        }
        assert forall|path: Seq<u8>| #[trigger]
            with_rows(entries, rows).dom().contains(path) implies entries.dom().contains(path)
            || exists|i: int| 0 <= i < rows.len() && (#[trigger] rows[i]).0 == path by {
            if path != rows.last().0 && !entries.dom().contains(path) {
                let i = choose|i: int| 0 <= i < rest.len() && (#[trigger] rest[i]).0 == path;
                assert(rows[i].0 == path);
            } else if path == rows.last().0 {
                assert(rows[rows.len() - 1].0 == path);
            }
        }
    }
}

/// Every path of an older run is a path of the whole tree.
proof fn lemma_tree_grows(
    tree: Seq<Seq<TableRef>>,
    held: spec_fn(TableRef) -> RowsModel,
    from: int,
)
    requires
        0 <= from <= tree.len(),
    ensures
        tree_entries(tree.skip(from), held).dom().subset_of(tree_entries(tree, held).dom()),
        from > 0 ==> forall|i: int|
            0 <= i < run_entries(tree[from - 1], held).len() ==> tree_entries(
                tree,
                held,
            ).dom().contains((#[trigger] run_entries(tree[from - 1], held)[i]).0),
    decreases from,
{
    if from == 0 {
        assert(tree.skip(0) =~= tree);
    } else {
        lemma_tree_grows(tree, held, from - 1);
        let newer = tree.skip(from - 1);
        assert(newer.drop_first() =~= tree.skip(from));
        assert(newer[0] == tree[from - 1]);
        lemma_with_rows_grows(
            tree_entries(tree.skip(from), held),
            run_entries(tree[from - 1], held),
        );
    }
}

/// The rows of a run's first tables are the first rows of the run.
proof fn lemma_run_entries_prefix(
    run: Seq<TableRef>,
    held: spec_fn(TableRef) -> RowsModel,
    count: int,
)
    requires
        0 <= count <= run.len(),
    ensures
        run_entries(run.take(count), held).len() <= run_entries(run, held).len(),
        run_entries(run.take(count), held) == run_entries(run, held).take(
            run_entries(run.take(count), held).len() as int,
        ),
    decreases run.len() - count,
{
    if count == run.len() {
        assert(run.take(count) =~= run);
        assert(run_entries(run, held).take(run_entries(run, held).len() as int) =~= run_entries(
            run,
            held,
        ));
    } else {
        lemma_run_entries_prefix(run, held, count + 1);
        let longer = run.take(count + 1);
        assert(longer.drop_last() =~= run.take(count));
        assert(run_entries(run.take(count), held) =~= run_entries(run, held).take(
            run_entries(run.take(count), held).len() as int,
        ));
    }
}

proof fn lemma_run_cells_prefix(
    run: Seq<TableRef>,
    held: spec_fn(TableRef) -> RowsModel,
    count: int,
)
    requires
        0 <= count <= run.len(),
    ensures
        run_cells(run.take(count), held).len() <= run_cells(run, held).len(),
        run_cells(run.take(count), held) == run_cells(run, held).take(
            run_cells(run.take(count), held).len() as int,
        ),
    decreases run.len() - count,
{
    if count == run.len() {
        assert(run.take(count) =~= run);
        assert(run_cells(run, held).take(run_cells(run, held).len() as int) =~= run_cells(
            run,
            held,
        ));
    } else {
        lemma_run_cells_prefix(run, held, count + 1);
        let longer = run.take(count + 1);
        assert(longer.drop_last() =~= run.take(count));
        assert(run_cells(run.take(count), held) =~= run_cells(run, held).take(
            run_cells(run.take(count), held).len() as int,
        ));
    }
}

/// Rows put over rows are the joined rows put over.
proof fn lemma_with_rows_join(
    entries: Map<Seq<u8>, DirectoryEntry>,
    first: Seq<(Seq<u8>, DirectoryEntry)>,
    second: Seq<(Seq<u8>, DirectoryEntry)>,
)
    ensures
        with_rows(with_rows(entries, first), second) == with_rows(entries, first + second),
    decreases second.len(),
{
    if second.len() == 0 {
        assert(first + second =~= first);
    } else {
        lemma_with_rows_join(entries, first, second.drop_last());
        assert((first + second).drop_last() =~= first + second.drop_last());
    }
}

proof fn lemma_with_cells_join(
    records: Map<u64, RecordModel>,
    first: Seq<(StreamUid, Option<RecordModel>)>,
    second: Seq<(StreamUid, Option<RecordModel>)>,
)
    ensures
        with_cells(with_cells(records, first), second) == with_cells(records, first + second),
    decreases second.len(),
{
    if second.len() == 0 {
        assert(first + second =~= first);
    } else {
        lemma_with_cells_join(records, first, second.drop_last());
        assert((first + second).drop_last() =~= first + second.drop_last());
    }
}

/// Nonzero streams up to a bound are no more than the bound.
proof fn lemma_uids_len(uids: Set<u64>, bound: nat)
    requires
        uids.finite(),
        forall|uid: u64| #[trigger] uids.contains(uid) ==> 1 <= uid <= bound,
    ensures
        uids.len() <= bound,
    decreases bound,
{
    if bound == 0 {
        assert(uids =~= Set::empty());
    } else if bound <= u64::MAX {
        let rest = uids.remove(bound as u64);
        assert forall|uid: u64| #[trigger] rest.contains(uid) implies 1 <= uid <= bound - 1 by {
            assert(uids.contains(uid));
        }
        lemma_uids_len(rest, (bound - 1) as nat);
    } else {
        assert forall|uid: u64| #[trigger] uids.contains(uid) implies 1 <= uid <= bound - 1 by {}
        lemma_uids_len(uids, (bound - 1) as nat);
    }
}

/// Every stream with a record is a lifetime occupancy.
spec fn uids_bounded(records: Map<u64, RecordModel>) -> bool {
    forall|uid: u64| #[trigger]
        records.dom().contains(uid) ==> 1 <= uid <= PARTITION_PATH_OCCUPANCIES_MAX_V2
}

/// Rows of known paths always fit the resident account.
proof fn lemma_entries_load(
    merged: MergedModel,
    rows: Seq<(Seq<u8>, DirectoryEntry)>,
    paths: Set<Seq<u8>>,
)
    requires
        merged.wf(),
        uids_bounded(merged.rows.ledger),
        paths.finite(),
        paths.len() <= PARTITION_PATH_OCCUPANCIES_MAX_V2,
        merged.rows.directory.dom().subset_of(paths),
        forall|i: int|
            0 <= i < rows.len() ==> paths.contains((#[trigger] rows[i]).0)
                && crate::domain::protocol::path_fits(rows[i].0),
    ensures
        merged.with_entries(rows) is Some,
        ({
            let after = merged.with_entries(rows)->0;
            &&& after.wf()
            &&& after.rows.directory == with_rows(merged.rows.directory, rows)
            &&& after.rows.directory.dom().subset_of(paths)
            &&& after.rows.ledger == merged.rows.ledger
        }),
    decreases rows.len(),
{
    if rows.len() > 0 {
        let rest = rows.drop_last();
        assert forall|i: int| 0 <= i < rest.len() implies paths.contains((#[trigger] rest[i]).0)
            && crate::domain::protocol::path_fits(rest[i].0) by {
            assert(rest[i] == rows[i]);
        }
        lemma_entries_load(merged, rest, paths);
        let before = merged.with_entries(rest)->0;
        let row = rows.last();
        assert(row == rows[rows.len() - 1]);
        let held = before.rows.directory.dom();
        lemma_uids_len(before.rows.ledger.dom(), PARTITION_PATH_OCCUPANCIES_MAX_V2 as nat);
        if !held.contains(row.0) {
            assert(held.insert(row.0).subset_of(paths));
            vstd::set_lib::lemma_len_subset(held.insert(row.0), paths);
        }
        let count = held.len() as int;
        let records = before.rows.ledger.dom().len() as int;
        assert(!held.contains(row.0) ==> count + 1 <= 10_000_000);
        assert(before.resident_bytes == count * 525 + records * 1035);
        assert(before.with_entry(row) is Some);
        crate::engine::base_load::lemma_with_entry_keeps(before, row);
        let after = merged.with_entries(rows)->0;
        assert(after.rows.directory.dom().subset_of(paths)) by {
            assert forall|path: Seq<u8>|
                after.rows.directory.dom().contains(path) implies paths.contains(path) by {
                if path != row.0 {
                    assert(held.contains(path));
                }
            }
        }
    }
}

/// Cells of lifetime occupancies always fit the resident account.
proof fn lemma_cells_load(
    merged: MergedModel,
    rows: Seq<(StreamUid, Option<RecordModel>)>,
)
    requires
        merged.wf(),
        uids_bounded(merged.rows.ledger),
        merged.rows.directory.dom().len() <= PARTITION_PATH_OCCUPANCIES_MAX_V2,
        crate::domain::sst_ledger::ledger_rows_wf(rows),
        forall|i: int|
            0 <= i < rows.len() ==> (#[trigger] rows[i]).0.value
                <= PARTITION_PATH_OCCUPANCIES_MAX_V2,
    ensures
        merged.with_cells(rows) is Some,
        ({
            let after = merged.with_cells(rows)->0;
            &&& after.wf()
            &&& after.rows.ledger == with_cells(merged.rows.ledger, rows)
            &&& uids_bounded(after.rows.ledger)
            &&& after.rows.directory == merged.rows.directory
        }),
    decreases rows.len(),
{
    if rows.len() > 0 {
        let rest = rows.drop_last();
        assert forall|i: int| 0 <= i < rest.len() implies (#[trigger] rest[i]).0.wf() && (
        rest[i].1 matches Some(record) ==> record.wf()) && rest[i].0.value
            <= PARTITION_PATH_OCCUPANCIES_MAX_V2 by {
            assert(rest[i] == rows[i]);
        }
        lemma_cells_load(merged, rest);
        let before = merged.with_cells(rest)->0;
        let row = rows.last();
        assert(row == rows[rows.len() - 1]);
        assert(row.0.wf());
        let held = before.rows.ledger.dom();
        let uid = row.0.value;
        if !held.contains(uid) {
            assert forall|other: u64| #[trigger] held.insert(uid).contains(other) implies 1
                <= other <= PARTITION_PATH_OCCUPANCIES_MAX_V2 by {
                if other != uid {
                    assert(before.rows.ledger.dom().contains(other));
                }
            }
            lemma_uids_len(held.insert(uid), PARTITION_PATH_OCCUPANCIES_MAX_V2 as nat);
        }
        let count = held.len() as int;
        let entries = before.rows.directory.dom().len() as int;
        assert(!held.contains(uid) ==> count + 1 <= 10_000_000);
        assert(before.resident_bytes == entries * 525 + count * 1035);
        assert(before.with_cell(row) is Some);
        crate::engine::base_load::lemma_with_cell_keeps(before, row);
        let after = merged.with_cells(rows)->0;
        assert forall|other: u64| #[trigger] after.rows.ledger.dom().contains(other) implies 1
            <= other <= PARTITION_PATH_OCCUPANCIES_MAX_V2 by {
            if other != uid {
                assert(before.rows.ledger.dom().contains(other));
            }
        }
    }
}

/// A loading of the plan of `seal` has merged exactly the tables before its position.
spec fn at_position(
    load: LoadModel,
    seal: SealModel,
    held: spec_fn(TableRef) -> RowsModel,
    forest: ForestModel,
) -> bool {
    let directory_runs = seal.directory.len() as int;
    let ledger_runs = seal.ledger.len() as int;
    let run = load.run as int;
    let rows = load.merged.rows;
    &&& load.wf()
    &&& load.plan == crate::engine::base_load::plan_of(seal)
    &&& uids_bounded(rows.ledger)
    &&& rows.directory.dom().subset_of(forest.directory.dom())
    &&& if run < directory_runs {
        let merged = run_entries(load.plan.directory[run].take(load.table as int), held);
        &&& rows.directory == with_rows(
            tree_entries(seal.directory.skip(directory_runs - run), held),
            merged,
        )
        &&& rows.ledger == Map::<u64, RecordModel>::empty()
        &&& load.last_path == (if load.table == 0 {
            None
        } else {
            Some(merged.last().0)
        })
    } else if run < directory_runs + ledger_runs {
        let at = run - directory_runs;
        let merged = run_cells(load.plan.ledger[at].take(load.table as int), held);
        &&& rows.directory == forest.directory
        &&& rows.ledger == with_cells(
            tree_records(seal.ledger.skip(ledger_runs - at), held),
            merged,
        )
        &&& load.last_uid == (if load.table == 0 {
            None
        } else {
            Some(merged.last().0)
        })
    } else {
        rows == forest && load.table == 0
    }
}

/// How many tables lie before a position.
spec fn position(load: LoadModel) -> nat {
    crate::domain::seal::tree_tables(load.plan.runs().take(load.run as int)).len() + load.table
}

/// The start of a run is where its predecessor ended.
proof fn lemma_run_starts(
    load: LoadModel,
    seal: SealModel,
    held: spec_fn(TableRef) -> RowsModel,
    forest: ForestModel,
    directory: Map<Seq<u8>, DirectoryEntry>,
    ledger: Map<u64, RecordModel>,
)
    requires
        load.plan == crate::engine::base_load::plan_of(seal),
        load.wf(),
        load.table == 0,
        load.last_path is None,
        load.last_uid is None,
        stores(seal, held, forest),
        uids_bounded(load.merged.rows.ledger),
        load.merged.rows.directory.dom().subset_of(forest.directory.dom()),
        load.run <= seal.directory.len() ==> directory == tree_entries(
            seal.directory.skip(seal.directory.len() - load.run),
            held,
        ) && ledger == Map::<u64, RecordModel>::empty(),
        load.run > seal.directory.len() ==> directory == forest.directory && ledger == tree_records(
            seal.ledger.skip(seal.ledger.len() - (load.run - seal.directory.len())),
            held,
        ),
        load.merged.rows.directory == directory,
        load.merged.rows.ledger == ledger,
    ensures
        at_position(load, seal, held, forest),
{
    let directory_runs = seal.directory.len() as int;
    let ledger_runs = seal.ledger.len() as int;
    let run = load.run as int;
    assert(seal.directory.skip(0) =~= seal.directory);
    assert(seal.ledger.skip(0) =~= seal.ledger);
    if run < directory_runs {
        assert(load.plan.directory[run].take(0) =~= Seq::<TableRef>::empty());
    } else {
        if run == directory_runs {
            assert(seal.ledger.skip(ledger_runs) =~= Seq::<Seq<TableRef>>::empty());
        }
        if run < directory_runs + ledger_runs {
            assert(load.plan.ledger[run - directory_runs].take(0) =~= Seq::<TableRef>::empty());
        } else {
            assert(load.merged.rows.ledger =~= forest.ledger);
            assert(load.merged.rows == forest);
        }
    }
}

/// A run's tables up to the next one: their rows are the rows of the run so far.
proof fn lemma_next_entries(run: Seq<TableRef>, held: spec_fn(TableRef) -> RowsModel, t: int)
    requires
        run_holds_entries(run, held),
        0 <= t < run.len(),
    ensures
        ({
            let before = run_entries(run.take(t), held);
            let new = held(run[t])->Directory_0;
            let all = run_entries(run, held);
            &&& held(run[t]) is Directory
            &&& held(run[t]).wf()
            &&& run_entries(run.take(t + 1), held) == before + new
            &&& before.len() + new.len() <= all.len()
            &&& forall|i: int|
                0 <= i < new.len() ==> #[trigger] new[i] == all[before.len() + i]
            &&& t > 0 ==> before.len() > 0 && crate::domain::text::bytes_less(
                before.last().0,
                new[0].0,
            )
        }),
{
    let before = run_entries(run.take(t), held);
    let new = held(run[t])->Directory_0;
    let all = run_entries(run, held);
    let longer = run.take(t + 1);
    assert(longer.drop_last() =~= run.take(t));
    assert(longer.last() == run[t]);
    assert(held(run[t]) is Directory && held(run[t]).wf());
    lemma_run_entries_prefix(run, held, t);
    lemma_run_entries_prefix(run, held, t + 1);
    assert forall|i: int| 0 <= i < new.len() implies #[trigger] new[i] == all[before.len() + i] by {
        assert((before + new)[before.len() + i] == new[i]);
        assert(run_entries(longer, held)[before.len() + i] == all[before.len() + i]);
    }
    if t > 0 {
        assert(run.take(t).last() == run[t - 1]);
        assert(held(run[t - 1]) is Directory && held(run[t - 1]).wf());
        assert(before[before.len() - 1] == all[before.len() - 1]);
        assert(new[0] == all[before.len() as int]);
    }
}

proof fn lemma_next_cells(run: Seq<TableRef>, held: spec_fn(TableRef) -> RowsModel, t: int)
    requires
        run_holds_cells(run, held),
        0 <= t < run.len(),
    ensures
        ({
            let before = run_cells(run.take(t), held);
            let new = held(run[t])->Ledger_0;
            let all = run_cells(run, held);
            &&& held(run[t]) is Ledger
            &&& held(run[t]).wf()
            &&& run_cells(run.take(t + 1), held) == before + new
            &&& before.len() + new.len() <= all.len()
            &&& forall|i: int|
                0 <= i < new.len() ==> #[trigger] new[i] == all[before.len() + i]
            &&& t > 0 ==> before.len() > 0 && before.last().0.value < new[0].0.value
        }),
{
    let before = run_cells(run.take(t), held);
    let new = held(run[t])->Ledger_0;
    let all = run_cells(run, held);
    let longer = run.take(t + 1);
    assert(longer.drop_last() =~= run.take(t));
    assert(longer.last() == run[t]);
    assert(held(run[t]) is Ledger && held(run[t]).wf());
    lemma_run_cells_prefix(run, held, t);
    lemma_run_cells_prefix(run, held, t + 1);
    assert forall|i: int| 0 <= i < new.len() implies #[trigger] new[i] == all[before.len() + i] by {
        assert((before + new)[before.len() + i] == new[i]);
        assert(run_cells(longer, held)[before.len() + i] == all[before.len() + i]);
    }
    if t > 0 {
        assert(run.take(t).last() == run[t - 1]);
        assert(held(run[t - 1]) is Ledger && held(run[t - 1]).wf());
        assert(before[before.len() - 1] == all[before.len() - 1]);
        assert(new[0] == all[before.len() as int]);
    }
}

/// One more table is one position on.
proof fn lemma_position_step(load: LoadModel, after: LoadModel)
    requires
        load.wf(),
        load.next() is Some,
        after.plan == load.plan,
        if load.table + 1 < load.plan.runs()[load.run as int].len() {
            after.run == load.run && after.table == load.table + 1
        } else {
            after.run == load.run + 1 && after.table == 0
        },
    ensures
        position(after) == position(load) + 1,
{
    let runs = load.plan.runs();
    let run_at = load.run as int;
    assert(runs.take(run_at + 1).drop_last() =~= runs.take(run_at));
    assert(runs.take(run_at + 1).last() == runs[run_at]);
}

proof fn lemma_directory_step(
    load: LoadModel,
    seal: SealModel,
    held: spec_fn(TableRef) -> RowsModel,
    forest: ForestModel,
)
    requires
        seal.wf(),
        stores(seal, held, forest),
        forest.wf(),
        at_position(load, seal, held, forest),
        load.run < seal.directory.len(),
    ensures
        load.next() is Some,
        load.merge(held(load.next()->0)) is Ok,
        at_position(load.merge(held(load.next()->0))->Ok_0, seal, held, forest),
        position(load.merge(held(load.next()->0))->Ok_0) == position(load) + 1,
{
    let plan = load.plan;
    let directory_runs = seal.directory.len() as int;
    let run_at = load.run as int;
    let t = load.table as int;
    let k = directory_runs - 1 - run_at;
    let run = seal.directory[k];
    assert(plan.runs()[run_at] == plan.directory[run_at]);
    assert(plan.directory[run_at] == run);
    assert(run_holds_entries(seal.directory[k], held));
    lemma_next_entries(run, held, t);
    let rows = held(run[t]);
    let new = rows->Directory_0;
    let before = run_entries(run.take(t), held);
    let older = tree_entries(seal.directory.skip(k + 1), held);
    lemma_tree_grows(seal.directory, held, k + 1);
    assert(seal.directory[(k + 1) - 1] == run);
    assert forall|i: int| 0 <= i < new.len() implies forest.directory.dom().contains(
        (#[trigger] new[i]).0,
    ) && crate::domain::protocol::path_fits(new[i].0) by {
        assert(new[i] == run_entries(run, held)[before.len() + i]);
    }
    lemma_entries_load(load.merged, new, forest.directory.dom());
    let merged = load.merged.with_entries(new)->0;
    lemma_with_rows_join(older, before, new);
    let after = load.advanced(merged, Some(new.last().0), None);
    assert(load.merge(rows) == Ok::<LoadModel, ExitModel>(after));
    lemma_position_step(load, after);
    if t + 1 < run.len() {
        assert((before + new).last() == new.last());
    } else {
        assert(run.take(t + 1) =~= run);
        let newer = seal.directory.skip(k);
        assert(newer.drop_first() =~= seal.directory.skip(k + 1));
        assert(newer[0] == run);
        lemma_next_run_valid(after);
        lemma_run_starts(after, seal, held, forest, merged.rows.directory, merged.rows.ledger);
    }
}

proof fn lemma_ledger_step(
    load: LoadModel,
    seal: SealModel,
    held: spec_fn(TableRef) -> RowsModel,
    forest: ForestModel,
)
    requires
        seal.wf(),
        stores(seal, held, forest),
        forest.wf(),
        at_position(load, seal, held, forest),
        seal.directory.len() <= load.run < seal.directory.len() + seal.ledger.len(),
    ensures
        load.next() is Some,
        load.merge(held(load.next()->0)) is Ok,
        at_position(load.merge(held(load.next()->0))->Ok_0, seal, held, forest),
        position(load.merge(held(load.next()->0))->Ok_0) == position(load) + 1,
{
    let plan = load.plan;
    let ledger_runs = seal.ledger.len() as int;
    let at = load.run - seal.directory.len();
    let t = load.table as int;
    let k = ledger_runs - 1 - at;
    let run = seal.ledger[k];
    assert(plan.runs()[load.run as int] == plan.ledger[at]);
    assert(plan.ledger[at] == run);
    assert(run_holds_cells(seal.ledger[k], held));
    lemma_next_cells(run, held, t);
    let rows = held(run[t]);
    let new = rows->Ledger_0;
    let before = run_cells(run.take(t), held);
    let older = tree_records(seal.ledger.skip(k + 1), held);
    assert forall|i: int| 0 <= i < new.len() implies (#[trigger] new[i]).0.value
        <= PARTITION_PATH_OCCUPANCIES_MAX_V2 by {
        assert(new[i] == run_cells(run, held)[before.len() + i]);
    }
    lemma_cells_load(load.merged, new);
    let merged = load.merged.with_cells(new)->0;
    lemma_with_cells_join(older, before, new);
    let after = load.advanced(merged, None, Some(new.last().0));
    assert(load.merge(rows) == Ok::<LoadModel, ExitModel>(after));
    lemma_position_step(load, after);
    if t + 1 < run.len() {
        assert((before + new).last() == new.last());
    } else {
        assert(run.take(t + 1) =~= run);
        let newer = seal.ledger.skip(k);
        assert(newer.drop_first() =~= seal.ledger.skip(k + 1));
        assert(newer[0] == run);
        lemma_next_run_valid(after);
        lemma_run_starts(after, seal, held, forest, merged.rows.directory, merged.rows.ledger);
    }
}

/// The first table of every run is there.
proof fn lemma_next_run_valid(load: LoadModel)
    requires
        load.plan.wf(),
        load.merged.wf(),
        load.run <= load.plan.runs().len(),
        load.table == 0,
    ensures
        load.wf(),
{
    let runs = load.plan.runs();
    if load.run < runs.len() {
        if load.run < load.plan.directory.len() {
            assert(runs[load.run as int] == load.plan.directory[load.run as int]);
        } else {
            assert(runs[load.run as int] == load.plan.ledger[load.run
                - load.plan.directory.len()]);
        }
    }
}

proof fn lemma_load_rest(
    load: LoadModel,
    seal: SealModel,
    held: spec_fn(TableRef) -> RowsModel,
    forest: ForestModel,
    tables: nat,
)
    requires
        seal.wf(),
        stores(seal, held, forest),
        forest.wf(),
        at_position(load, seal, held, forest),
        position(load) + tables == crate::domain::seal::tree_tables(load.plan.runs()).len(),
    ensures
        loaded(load, held, tables) is Ok,
        loaded(load, held, tables)->Ok_0.next() is None,
        loaded(load, held, tables)->Ok_0.merged.rows == forest,
    decreases tables,
{
    let runs = load.plan.runs();
    if load.next() is Some {
        let rest = runs.skip(load.run as int);
        assert(runs.take(load.run as int) + rest =~= runs);
        crate::domain::seal::lemma_tree_tables_join(runs.take(load.run as int), rest);
        assert(seq![runs[load.run as int]] + rest.drop_first() =~= rest);
        crate::domain::seal::lemma_tree_tables_join(
            seq![runs[load.run as int]],
            rest.drop_first(),
        );
        assert(seq![runs[load.run as int]].drop_last() =~= Seq::<Seq<TableRef>>::empty());
        assert(crate::domain::seal::tree_tables(seq![runs[load.run as int]])
            =~= runs[load.run as int]) by {
            reveal_with_fuel(crate::domain::seal::tree_tables, 2);
        }
        assert(tables > 0);
        if load.run < seal.directory.len() {
            lemma_directory_step(load, seal, held, forest);
        } else {
            lemma_ledger_step(load, seal, held, forest);
        }
        let after = load.merge(held(load.next()->0))->Ok_0;
        lemma_load_rest(after, seal, held, forest, (tables - 1) as nat);
    }
}

/// Reopening loads what is stored: merging every table that a Seal selects, in the
/// planned order, fails nowhere and gives exactly the forest that the Seal stores.
pub proof fn law_stored_forest_is_loaded(
    seal: SealModel,
    held: spec_fn(TableRef) -> RowsModel,
    forest: ForestModel,
)
    requires
        seal.wf(),
        forest.wf(),
        stores(seal, held, forest),
    ensures
        ({
            let plan = crate::engine::base_load::plan_of(seal);
            let end = loaded(
                LoadModel::start(plan),
                held,
                crate::domain::seal::tree_tables(plan.runs()).len(),
            );
            &&& end is Ok
            &&& end->Ok_0.next() is None
            &&& end->Ok_0.merged.rows == forest
        }),
{
    let plan = crate::engine::base_load::plan_of(seal);
    let start = LoadModel::start(plan);
    crate::engine::base_load::lemma_plan_is_valid(seal);
    lemma_next_run_valid(start);
    assert(seal.directory.skip(seal.directory.len() as int) =~= Seq::<Seq<TableRef>>::empty());
    lemma_run_starts(
        start,
        seal,
        held,
        forest,
        Map::<Seq<u8>, DirectoryEntry>::empty(),
        Map::<u64, RecordModel>::empty(),
    );
    assert(plan.runs().take(0) =~= Seq::<Seq<TableRef>>::empty());
    lemma_load_rest(
        start,
        seal,
        held,
        forest,
        crate::domain::seal::tree_tables(plan.runs()).len(),
    );
}

} // verus!
