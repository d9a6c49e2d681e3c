//! Pure advancing-checkpoint preparation.
//!
//! A checkpoint stores either what changed since its source, as one more run on each
//! tree, or, where that would exceed a bound of the next bootstrap, everything anew.

use vstd::prelude::*;

use crate::domain::bounds::{
    DIRECTORY_ROW_ENCODED_BYTES_MAX, LEDGER_DELETE_ROW_ENCODED_BYTES_MAX,
    LEDGER_VALUE_ROW_ENCODED_BYTES_MAX, PARTITION_BOOTSTRAP_BYTES_MAX_V2,
    PARTITION_BOOTSTRAP_OBJECTS_MAX_V2, PARTITION_PATH_OCCUPANCIES_MAX_V2,
    SST_ARCHIVE_FIXED_BYTES_MAX, SST_TABLE_TARGET_BYTES, TREE_RUNS_MAX,
};
use crate::domain::candidate::{EncodedAuthoritySeal, EncodedTable};
use crate::domain::coordinate::{OwnerToken, SealGeneration, StreamUid};
use crate::domain::directory::{DirectoryEntry, DirectoryKey};
use crate::domain::ledger::{LedgerCell, RecordModel};
use crate::domain::partition::PartitionId;
use crate::domain::seal::{Seal, SealModel, SortedRun, TableRef, TreeVersion, WalReplayPoint};
use crate::domain::spelling::TableKey;
use crate::domain::table::{AttemptId, FreshIdentity, StoreKind, TableObjectId};
use crate::engine::checkpoint::{CheckpointInput, CheckpointInstall};
use crate::engine::chunks::{account_rows, plan_chunks, Chunk, ChunkAccounting};
use crate::engine::delta::{CellsModel, ForestDelta};
use crate::engine::forest::{Forest, ForestModel};

verus! {

/// The worst-case encoded lengths of so many Directory rows.
pub open spec fn directory_weights(rows: nat) -> Seq<u64> {
    Seq::new(rows, |_i: int| DIRECTORY_ROW_ENCODED_BYTES_MAX)
}

/// The worst-case encoded lengths of Ledger rows.
pub open spec fn ledger_weights(rows: Seq<(StreamUid, Option<RecordModel>)>) -> Seq<u64> {
    rows.map(
        |_i: int, row: (StreamUid, Option<RecordModel>)|
            crate::domain::sst_ledger::cell_estimate(row.1) as u64,
    )
}

/// The worst-case encoded length of a Ledger row.
pub fn ledger_row_bytes(cell: &LedgerCell) -> (bytes: u64)
    ensures
        bytes == crate::domain::sst_ledger::cell_estimate(cell@),
{
    match cell {
        LedgerCell::Value(_) => LEDGER_VALUE_ROW_ENCODED_BYTES_MAX,
        LedgerCell::Delete => LEDGER_DELETE_ROW_ENCODED_BYTES_MAX,
    }
}

fn weigh_directory(rows: usize) -> (weights: Vec<u64>)
    ensures
        weights@ == directory_weights(rows as nat),
{
    let mut weights: Vec<u64> = Vec::new();
    let mut at: usize = 0;
    while at < rows
        invariant
            at <= rows,
            weights@ == directory_weights(at as nat),
        decreases rows - at,
    {
        weights.push(DIRECTORY_ROW_ENCODED_BYTES_MAX);
        at += 1;
        assert(weights@ =~= directory_weights(at as nat));
    }
    weights
}

fn weigh_ledger(rows: &Vec<(StreamUid, LedgerCell)>) -> (weights: Vec<u64>)
    ensures
        weights@ == ledger_weights(crate::domain::sst_ledger::ledger_rows(rows@)),
{
    let ghost said = crate::domain::sst_ledger::ledger_rows(rows@);
    let mut weights: Vec<u64> = Vec::new();
    let mut at: usize = 0;
    while at < rows.len()
        invariant
            at <= rows.len(),
            said == crate::domain::sst_ledger::ledger_rows(rows@),
            weights@ == ledger_weights(said.take(at as int)),
        decreases rows.len() - at,
    {
        weights.push(ledger_row_bytes(&rows[at].1));
        at += 1;
        assert(weights@ =~= ledger_weights(said.take(at as int)));
    }
    assert(said.take(at as int) =~= said);
    weights
}

/// Worst-case lengths of Directory rows fit the table target and add up.
pub proof fn lemma_directory_weights(rows: nat)
    requires
        rows <= PARTITION_PATH_OCCUPANCIES_MAX_V2,
    ensures
        crate::engine::chunks::weights_fit(directory_weights(rows)),
{
}

proof fn lemma_directory_weight_sum(rows: nat)
    ensures
        crate::engine::chunks::weight_sum(directory_weights(rows)) == rows
            * DIRECTORY_ROW_ENCODED_BYTES_MAX,
    decreases rows,
{
    if rows > 0 {
        let rest = (rows - 1) as nat;
        lemma_directory_weight_sum(rest);
        assert(directory_weights(rows).drop_last() =~= directory_weights(rest));
        assert(rows * DIRECTORY_ROW_ENCODED_BYTES_MAX == rest * DIRECTORY_ROW_ENCODED_BYTES_MAX
            + DIRECTORY_ROW_ENCODED_BYTES_MAX) by (nonlinear_arith)
            requires
                rows == rest + 1,
        ;
    }
}

pub proof fn lemma_ledger_weights(rows: Seq<(StreamUid, Option<RecordModel>)>)
    requires
        rows.len() <= PARTITION_PATH_OCCUPANCIES_MAX_V2,
    ensures
        crate::engine::chunks::weights_fit(ledger_weights(rows)),
        forall|i: int|
            0 <= i < rows.len() ==> #[trigger] ledger_weights(rows)[i]
                <= LEDGER_VALUE_ROW_ENCODED_BYTES_MAX,
{
}

proof fn lemma_ledger_weight_sum(rows: Seq<(StreamUid, Option<RecordModel>)>)
    ensures
        crate::engine::chunks::weight_sum(ledger_weights(rows))
            == crate::domain::sst_ledger::cells_estimate(rows),
        crate::engine::chunks::weight_sum(ledger_weights(rows)) <= rows.len()
            * LEDGER_VALUE_ROW_ENCODED_BYTES_MAX,
    decreases rows.len(),
{
    if rows.len() > 0 {
        let rest = rows.drop_last();
        lemma_ledger_weight_sum(rest);
        assert(ledger_weights(rows).drop_last() =~= ledger_weights(rest));
        assert(rows.len() * LEDGER_VALUE_ROW_ENCODED_BYTES_MAX == rest.len()
            * LEDGER_VALUE_ROW_ENCODED_BYTES_MAX + LEDGER_VALUE_ROW_ENCODED_BYTES_MAX)
            by (nonlinear_arith)
            requires
                rows.len() == rest.len() + 1,
        ;
    }
}

/// The fresh tables may join the source's as one more run on each tree: the next
/// bootstrap stays inside its bounds on runs, objects and bytes.
pub open spec fn appendable(
    source: SealModel,
    directory: ChunkAccounting,
    ledger: ChunkAccounting,
) -> bool {
    &&& source.directory.len() + (if directory.tables != 0 {
        1int
    } else {
        0
    }) <= TREE_RUNS_MAX
    &&& source.ledger.len() + (if ledger.tables != 0 {
        1int
    } else {
        0
    }) <= TREE_RUNS_MAX
    &&& source.tables().len() + directory.tables + ledger.tables
        <= PARTITION_BOOTSTRAP_OBJECTS_MAX_V2
    &&& crate::engine::base_load::tables_bytes(source.tables()) + directory.bytes + ledger.bytes
        <= PARTITION_BOOTSTRAP_BYTES_MAX_V2
}

/// Whether the fresh tables may join the source's.
pub fn select_delta(source: &Seal, directory: ChunkAccounting, ledger: ChunkAccounting) -> (selected:
    bool)
    ensures
        selected == appendable(source@, directory, ledger),
{
    let directory_runs: usize = source.directory().runs().len();
    let ledger_runs: usize = source.ledger().runs().len();
    let tables = source.tables();
    let mut room: u64 = PARTITION_BOOTSTRAP_BYTES_MAX_V2;
    let mut at: usize = 0;
    assert(tables@.take(0) =~= Seq::empty());
    while at < tables.len()
        invariant
            at <= tables.len(),
            tables@ == source@.tables(),
            room <= PARTITION_BOOTSTRAP_BYTES_MAX_V2,
            room + crate::engine::base_load::tables_bytes(tables@.take(at as int))
                == PARTITION_BOOTSTRAP_BYTES_MAX_V2,
        decreases tables.len() - at,
    {
        assert(tables@.take(at + 1).drop_last() =~= tables@.take(at as int));
        let object_bytes: u64 = tables[at].object_bytes();
        if object_bytes > room {
            proof {
                crate::engine::base_load::lemma_tables_bytes_prefix(tables@, at + 1);
            }
            return false;
        }
        room = room - object_bytes;
        at += 1;
    }
    assert(tables@.take(at as int) =~= tables@);
    let directory_fits = directory_runs < TREE_RUNS_MAX || (directory_runs == TREE_RUNS_MAX
        && directory.tables == 0);
    let ledger_fits = ledger_runs < TREE_RUNS_MAX || (ledger_runs == TREE_RUNS_MAX && ledger.tables
        == 0);
    directory_fits && ledger_fits && tables.len() <= PARTITION_BOOTSTRAP_OBJECTS_MAX_V2
        && directory.tables <= PARTITION_BOOTSTRAP_OBJECTS_MAX_V2 - tables.len() && ledger.tables
        <= PARTITION_BOOTSTRAP_OBJECTS_MAX_V2 - tables.len() - directory.tables && directory.bytes
        <= room && ledger.bytes <= room - directory.bytes
}

/// The cells may join the source's tables as one more run on each tree.
pub open spec fn cells_appendable(source: SealModel, cells: CellsModel) -> bool {
    appendable(
        source,
        crate::engine::chunks::accounted(directory_weights(cells.directory.len())),
        crate::engine::chunks::accounted(ledger_weights(cells.ledger)),
    )
}

fn can_append_delta(source: &Seal, delta: &ForestDelta) -> (appends: bool)
    requires
        delta@.directory.len() <= PARTITION_PATH_OCCUPANCIES_MAX_V2,
        delta@.ledger.len() <= PARTITION_PATH_OCCUPANCIES_MAX_V2,
    ensures
        appends == cells_appendable(source@, delta@),
{
    proof {
        lemma_directory_weights(delta@.directory.len());
        lemma_ledger_weights(delta@.ledger);
    }
    let directory = account_rows(&weigh_directory(delta.directory.len()));
    let ledger = account_rows(&weigh_ledger(&delta.ledger));
    select_delta(source, directory, ledger)
}

/// A delta between valid forests has at most one row for each lifetime occupancy, in
/// each store, and its rows are inside the protocol's bounds.
pub proof fn lemma_delta_fits(cells: CellsModel, snapshot: ForestModel, base: ForestModel)
    requires
        crate::engine::delta::is_delta(cells, snapshot, base),
        snapshot.wf(),
        base.wf(),
    ensures
        cells.directory.len() <= PARTITION_PATH_OCCUPANCIES_MAX_V2,
        cells.ledger.len() <= PARTITION_PATH_OCCUPANCIES_MAX_V2,
        crate::domain::sst_directory::paths_fit(cells.directory),
        crate::domain::sst_directory::directory_rows_wf(cells.directory),
        crate::domain::sst_ledger::cells_fit(cells.ledger),
        crate::domain::sst_ledger::ledger_rows_wf(cells.ledger),
        forall|i: int|
            0 <= i < cells.ledger.len() ==> 1 <= (#[trigger] cells.ledger[i]).0.value
                <= PARTITION_PATH_OCCUPANCIES_MAX_V2,
{
    let entries = crate::engine::delta::entries_since(snapshot.directory, base.directory);
    crate::engine::ordered::lemma_directory_lists_len(cells.directory, entries);
    assert(entries.dom().subset_of(snapshot.directory.dom()));
    vstd::set_lib::lemma_len_subset(entries.dom(), snapshot.directory.dom());
    assert forall|i: int|
        0 <= i < cells.directory.len() implies crate::domain::protocol::path_fits(
        (#[trigger] cells.directory[i]).0,
    ) && cells.directory[i].1.wf() by {
        assert(entries.dom().contains(cells.directory[i].0));
        assert(snapshot.directory.dom().contains(cells.directory[i].0));
    }
    let changed = crate::engine::delta::cells_since(snapshot.ledger, base.ledger);
    assert forall|i: int| 0 <= i < cells.ledger.len() implies 1 <= (
    #[trigger] cells.ledger[i]).0.value <= PARTITION_PATH_OCCUPANCIES_MAX_V2
        && crate::domain::sst_ledger::cell_fits(cells.ledger[i].1) && (cells.ledger[i].1 matches Some(
        record,
    ) ==> record.wf()) by {
        let uid = cells.ledger[i].0.value;
        assert(changed.dom().contains(uid));
        if snapshot.ledger.dom().contains(uid) {
            lemma_record_uid(snapshot, uid);
        } else {
            assert(base.ledger.dom().contains(uid));
            lemma_record_uid(base, uid);
        }
    }
    lemma_ascending_len(cells.ledger, cells.ledger.len() as int);
    if cells.ledger.len() > 0 {
        assert(cells.ledger[cells.ledger.len() - 1].0.value <= PARTITION_PATH_OCCUPANCIES_MAX_V2);
    }
}

/// A record's stream is one of the lifetime occupancies.
proof fn lemma_record_uid(forest: ForestModel, uid: u64)
    requires
        forest.wf(),
        forest.ledger.dom().contains(uid),
    ensures
        1 <= uid <= PARTITION_PATH_OCCUPANCIES_MAX_V2,
        forest.ledger[uid].wf(),
{
    let path = choose|path: Seq<u8>| #[trigger]
        forest.live(path) == Some(StreamUid { value: uid });
    assert(forest.directory.dom().contains(path));
}

/// Ascending nonzero streams are at least as great as their positions.
proof fn lemma_ascending_len(rows: Seq<(StreamUid, Option<RecordModel>)>, count: int)
    requires
        crate::domain::sst_ledger::ledger_ordered(rows),
        0 <= count <= rows.len(),
        forall|i: int| 0 <= i < rows.len() ==> 1 <= (#[trigger] rows[i]).0.value,
    ensures
        count > 0 ==> rows[count - 1].0.value >= count,
    decreases count,
{
    if count > 1 {
        lemma_ascending_len(rows, count - 1);
        assert(rows[count - 2].0.value < rows[count - 1].0.value);
    } else if count == 1 {
        assert(1 <= rows[0].0.value);
    }
}

/// Everything anew always fits: a partition at full capacity needs fewer tables and
/// fewer bytes than one bootstrap may load.
pub proof fn law_full_rewrite_fits(cells: CellsModel)
    requires
        cells.directory.len() <= PARTITION_PATH_OCCUPANCIES_MAX_V2,
        cells.ledger.len() <= PARTITION_PATH_OCCUPANCIES_MAX_V2,
    ensures
        ({
            let directory = crate::engine::chunks::chunk_plan(
                directory_weights(cells.directory.len()),
            );
            let ledger = crate::engine::chunks::chunk_plan(ledger_weights(cells.ledger));
            &&& directory.len() + ledger.len() <= PARTITION_BOOTSTRAP_OBJECTS_MAX_V2
            &&& crate::engine::chunks::plan_bytes(directory) + crate::engine::chunks::plan_bytes(
                ledger,
            ) <= PARTITION_BOOTSTRAP_BYTES_MAX_V2
        }),
{
    let n = cells.directory.len();
    let m = cells.ledger.len();
    lemma_directory_weights(n);
    lemma_directory_weight_sum(n);
    lemma_ledger_weights(cells.ledger);
    lemma_ledger_weight_sum(cells.ledger);
    crate::engine::chunks::law_account_is_bounded(
        directory_weights(n),
        DIRECTORY_ROW_ENCODED_BYTES_MAX,
    );
    crate::engine::chunks::law_account_is_bounded(
        ledger_weights(cells.ledger),
        LEDGER_VALUE_ROW_ENCODED_BYTES_MAX,
    );
    let directory = crate::engine::chunks::chunk_plan(directory_weights(n)).len() as int;
    let ledger = crate::engine::chunks::chunk_plan(ledger_weights(cells.ledger)).len() as int;
    assert(DIRECTORY_ROW_ENCODED_BYTES_MAX == 1024 && LEDGER_VALUE_ROW_ENCODED_BYTES_MAX == 2048);
    assert(SST_TABLE_TARGET_BYTES == 0x400_0000 && SST_ARCHIVE_FIXED_BYTES_MAX == 256);
    assert(directory <= 200) by (nonlinear_arith)
        requires
            directory > 0 ==> (directory - 1) * (0x400_0000 - 256 - 1024) <= n * 1024,
            n <= 10_000_000,
    ;
    assert(ledger <= 400) by (nonlinear_arith)
        requires
            ledger > 0 ==> (ledger - 1) * (0x400_0000 - 256 - 2048) <= m * 2048,
            m <= 10_000_000,
    ;
}

/// The key of a checkpoint's table: its ordinal counts through both stores.
pub open spec fn fresh_key(
    partition: PartitionId,
    generation: SealGeneration,
    attempt: AttemptId,
    ordinal: nat,
    store: StoreKind,
) -> TableKey {
    TableKey {
        partition,
        object: TableObjectId {
            fresh: FreshIdentity { birth_generation: generation, attempt, ordinal: ordinal as u32 },
            store,
        },
    }
}

fn next_table_key(
    partition: PartitionId,
    generation: SealGeneration,
    attempt: AttemptId,
    ordinal: u32,
    store: StoreKind,
) -> (key: TableKey)
    requires
        attempt.owner_claim.value < generation.value,
    ensures
        key == fresh_key(partition, generation, attempt, ordinal as nat, store),
{
    let fresh = FreshIdentity { birth_generation: generation, attempt, ordinal };
    TableKey::new(partition, TableObjectId::new(fresh, store))
}

/// A table holds exactly these Directory rows under this key.
pub open spec fn holds_directory(
    table: EncodedTable,
    key: TableKey,
    rows: Seq<(Seq<u8>, DirectoryEntry)>,
) -> bool {
    let value = crate::domain::sst_directory::directory_archive(key, rows);
    let bytes = crate::domain::candidate::shared_bytes(table.bytes);
    &&& table.key == key
    &&& table.agrees()
    &&& table.table.object_bytes <= crate::domain::sst_directory::directory_estimate(rows.len())
    &&& crate::domain::sst_directory::directory_encode_error(key, rows) is None
    &&& bytes == crate::domain::archive::directory_archive_bytes(value)
    &&& crate::domain::archive::directory_archive_value(bytes) == Some(value)
}

/// A table holds exactly these Ledger rows under this key.
pub open spec fn holds_ledger(
    table: EncodedTable,
    key: TableKey,
    rows: Seq<(StreamUid, Option<RecordModel>)>,
) -> bool {
    let value = crate::domain::sst_ledger::ledger_archive(key, rows);
    let bytes = crate::domain::candidate::shared_bytes(table.bytes);
    &&& table.key == key
    &&& table.agrees()
    &&& table.table.object_bytes <= crate::domain::sst_ledger::ledger_estimate(rows)
    &&& crate::domain::sst_ledger::ledger_encode_error(key, rows) is None
    &&& bytes == crate::domain::archive::ledger_archive_bytes(value)
    &&& crate::domain::archive::ledger_archive_value(bytes) == Some(value)
}

/// Where a checkpoint's tables are written: the partition, the generation that they
/// are born in, and the attempt.
#[derive(Debug, Clone, Copy, PartialEq, Eq)]
pub struct TableBirth {
    pub partition: PartitionId,
    pub generation: SealGeneration,
    pub attempt: AttemptId,
}

impl TableBirth {
    pub open spec fn wf(self) -> bool {
        &&& self.partition.wf()
        &&& self.generation.wf()
        &&& self.attempt.wf()
        &&& self.attempt.owner_claim.value < self.generation.value
    }

    pub open spec fn key(self, ordinal: nat, store: StoreKind) -> TableKey {
        fresh_key(self.partition, self.generation, self.attempt, ordinal, store)
    }
}

/// The tables are the Directory rows, cut by the plan, numbered from `first`.
pub open spec fn directory_emitted(
    tables: Seq<EncodedTable>,
    birth: TableBirth,
    first: nat,
    rows: Seq<(Seq<u8>, DirectoryEntry)>,
) -> bool {
    let plan = crate::engine::chunks::chunk_plan(directory_weights(rows.len()));
    &&& tables.len() <= plan.len()
    &&& forall|i: int|
        0 <= i < tables.len() ==> holds_directory(
            #[trigger] tables[i],
            birth.key((first + i) as nat, StoreKind::Directory),
            crate::engine::chunks::chunk_rows(rows, plan, i),
        )
}

/// The tables are the Ledger rows, cut by the plan, numbered from `first`.
pub open spec fn ledger_emitted(
    tables: Seq<EncodedTable>,
    birth: TableBirth,
    first: nat,
    rows: Seq<(StreamUid, Option<RecordModel>)>,
) -> bool {
    let plan = crate::engine::chunks::chunk_plan(ledger_weights(rows));
    &&& tables.len() <= plan.len()
    &&& forall|i: int|
        0 <= i < tables.len() ==> holds_ledger(
            #[trigger] tables[i],
            birth.key((first + i) as nat, StoreKind::Ledger),
            crate::engine::chunks::chunk_rows(rows, plan, i),
        )
}

/// The references of encoded tables.
pub open spec fn references(tables: Seq<EncodedTable>) -> Seq<TableRef> {
    tables.map(|_i: int, table: EncodedTable| table.table)
}

/// The receiver takes every table.
pub open spec fn all_taken<Emit: Fn(EncodedTable) -> bool>(
    emit: Emit,
    tables: Seq<EncodedTable>,
) -> bool {
    forall|i: int| 0 <= i < tables.len() ==> emit.ensures((#[trigger] tables[i],), true)
}

/// The receiver takes every table but the last, which it refuses.
pub open spec fn last_refused<Emit: Fn(EncodedTable) -> bool>(
    emit: Emit,
    tables: Seq<EncodedTable>,
) -> bool {
    &&& tables.len() > 0
    &&& all_taken(emit, tables.drop_last())
    &&& emit.ensures((tables.last(),), false)
}

/// A planned Directory table is inside the table bound, and its rows are valid.
pub proof fn lemma_directory_chunk(rows: Seq<(Seq<u8>, DirectoryEntry)>, i: int)
    requires
        rows.len() <= PARTITION_PATH_OCCUPANCIES_MAX_V2,
        crate::domain::sst_directory::directory_ordered(rows),
        crate::domain::sst_directory::paths_fit(rows),
        0 <= i < crate::engine::chunks::chunk_plan(directory_weights(rows.len())).len(),
    ensures
        ({
            let plan = crate::engine::chunks::chunk_plan(directory_weights(rows.len()));
            let chunk = crate::engine::chunks::chunk_rows(rows, plan, i);
            &&& 0 <= crate::engine::chunks::chunk_start(plan, i) < plan[i].end <= rows.len()
            &&& chunk.len() > 0
            &&& crate::domain::sst_directory::directory_ordered(chunk)
            &&& crate::domain::sst_directory::paths_fit(chunk)
            &&& crate::domain::sst_directory::directory_estimate(chunk.len()) == plan[i].bytes
            &&& plan[i].bytes <= SST_TABLE_TARGET_BYTES
        }),
{
    let weights = directory_weights(rows.len());
    let plan = crate::engine::chunks::chunk_plan(weights);
    let start = crate::engine::chunks::chunk_start(plan, i);
    lemma_directory_weights(rows.len());
    crate::engine::chunks::law_chunks_hold_every_row_once(weights);
    assert(crate::engine::chunks::chunk_exact(weights, plan, i));
    let chunk = crate::engine::chunks::chunk_rows(rows, plan, i);
    assert(crate::engine::chunks::chunk_rows(weights, plan, i) =~= directory_weights(chunk.len()));
    lemma_directory_weight_sum(chunk.len());
    assert forall|a: int, b: int| 0 <= a < b < chunk.len() implies crate::domain::text::bytes_less(
        (#[trigger] chunk[a]).0,
        (#[trigger] chunk[b]).0,
    ) by {
        assert(chunk[a] == rows[start + a] && chunk[b] == rows[start + b]);
    }
    assert forall|a: int| 0 <= a < chunk.len() implies crate::domain::protocol::path_fits(
        (#[trigger] chunk[a]).0,
    ) by {
        assert(chunk[a] == rows[start + a]);
    }
}

/// A planned Ledger table is inside the table bound, and its rows are valid.
pub proof fn lemma_ledger_chunk(rows: Seq<(StreamUid, Option<RecordModel>)>, i: int)
    requires
        rows.len() <= PARTITION_PATH_OCCUPANCIES_MAX_V2,
        crate::domain::sst_ledger::ledger_ordered(rows),
        crate::domain::sst_ledger::cells_fit(rows),
        0 <= i < crate::engine::chunks::chunk_plan(ledger_weights(rows)).len(),
    ensures
        ({
            let plan = crate::engine::chunks::chunk_plan(ledger_weights(rows));
            let chunk = crate::engine::chunks::chunk_rows(rows, plan, i);
            &&& 0 <= crate::engine::chunks::chunk_start(plan, i) < plan[i].end <= rows.len()
            &&& chunk.len() > 0
            &&& crate::domain::sst_ledger::ledger_ordered(chunk)
            &&& crate::domain::sst_ledger::cells_fit(chunk)
            &&& crate::domain::sst_ledger::ledger_estimate(chunk) == plan[i].bytes
            &&& plan[i].bytes <= SST_TABLE_TARGET_BYTES
        }),
{
    let weights = ledger_weights(rows);
    let plan = crate::engine::chunks::chunk_plan(weights);
    let start = crate::engine::chunks::chunk_start(plan, i);
    lemma_ledger_weights(rows);
    crate::engine::chunks::law_chunks_hold_every_row_once(weights);
    assert(crate::engine::chunks::chunk_exact(weights, plan, i));
    let chunk = crate::engine::chunks::chunk_rows(rows, plan, i);
    assert(crate::engine::chunks::chunk_rows(weights, plan, i) =~= ledger_weights(chunk));
    lemma_ledger_weight_sum(chunk);
    assert forall|a: int, b: int| 0 <= a < b < chunk.len() implies (#[trigger] chunk[a]).0.value < (
    #[trigger] chunk[b]).0.value by {
        assert(chunk[a] == rows[start + a] && chunk[b] == rows[start + b]);
    }
    assert forall|a: int| 0 <= a < chunk.len() implies crate::domain::sst_ledger::cell_fits(
        (#[trigger] chunk[a]).1,
    ) by {
        assert(chunk[a] == rows[start + a]);
    }
}

/// The tables that were handed over, and the references to them where all were taken.
struct Emission {
    taken: Option<Vec<TableRef>>,
    tables: Ghost<Seq<EncodedTable>>,
}

fn emit_directory<Emit: Fn(EncodedTable) -> bool>(
    birth: TableBirth,
    rows: &Vec<(DirectoryKey, DirectoryEntry)>,
    emit: &Emit,
) -> (emission: Emission)
    requires
        birth.wf(),
        rows@.len() <= PARTITION_PATH_OCCUPANCIES_MAX_V2,
        crate::domain::sst_directory::directory_ordered(
            crate::domain::sst_directory::directory_rows(rows@),
        ),
        crate::domain::sst_directory::paths_fit(
            crate::domain::sst_directory::directory_rows(rows@),
        ),
        crate::engine::chunks::chunk_plan(directory_weights(rows@.len())).len()
            <= PARTITION_BOOTSTRAP_OBJECTS_MAX_V2,
        forall|table: EncodedTable| emit.requires((table,)),
    ensures
        ({
            let said = crate::domain::sst_directory::directory_rows(rows@);
            let plan = crate::engine::chunks::chunk_plan(directory_weights(said.len()));
            &&& directory_emitted(emission.tables@, birth, 0, said)
            &&& match emission.taken {
                Some(taken) => emission.tables@.len() == plan.len() && taken@ == references(
                    emission.tables@,
                ) && all_taken(*emit, emission.tables@),
                None => last_refused(*emit, emission.tables@),
            }
        }),
{
    let ghost said = crate::domain::sst_directory::directory_rows(rows@);
    proof {
        lemma_directory_weights(rows@.len());
    }
    let plan: Vec<Chunk> = plan_chunks(&weigh_directory(rows.len()));
    let mut taken: Vec<TableRef> = Vec::new();
    let ghost mut tables: Seq<EncodedTable> = Seq::empty();
    let mut start: usize = 0;
    let mut at: usize = 0;
    assert(taken@ =~= references(tables));
    while at < plan.len()
        invariant
            at <= plan.len() <= PARTITION_BOOTSTRAP_OBJECTS_MAX_V2,
            birth.wf(),
            rows@.len() <= PARTITION_PATH_OCCUPANCIES_MAX_V2,
            said == crate::domain::sst_directory::directory_rows(rows@),
            crate::domain::sst_directory::directory_ordered(said),
            crate::domain::sst_directory::paths_fit(said),
            plan@ == crate::engine::chunks::chunk_plan(directory_weights(said.len())),
            forall|table: EncodedTable| emit.requires((table,)),
            start == crate::engine::chunks::chunk_start(plan@, at as int),
            tables.len() == at,
            directory_emitted(tables, birth, 0, said),
            taken@ == references(tables),
            all_taken(*emit, tables),
        decreases plan.len() - at,
    {
        let ghost before = tables;
        let key = next_table_key(
            birth.partition,
            birth.generation,
            birth.attempt,
            at as u32,
            StoreKind::Directory,
        );
        proof {
            lemma_directory_chunk(said, at as int);
        }
        let end: usize = plan[at].end;
        let chunk: &[(DirectoryKey, DirectoryEntry)] = vstd::slice::slice_subrange(
            rows.as_slice(),
            start,
            end,
        );
        assert(crate::domain::sst_directory::directory_rows(chunk@)
            =~= crate::engine::chunks::chunk_rows(said, plan@, at as int));
        let encoded = match EncodedTable::encode_directory(key, chunk) {
            Ok(encoded) => encoded,
            Err(_error) => {
                assert(false);
                return Emission { taken: None, tables: Ghost(tables) };
            },
        };
        proof {
            tables = tables.push(encoded);
            assert forall|i: int| 0 <= i < tables.len() implies holds_directory(
                #[trigger] tables[i],
                birth.key((0 + i) as nat, StoreKind::Directory),
                crate::engine::chunks::chunk_rows(said, plan@, i),
            ) by {
                if i < before.len() {
                    assert(tables[i] == before[i]);
                }
            }
        }
        taken.push(encoded.table());
        assert(taken@ =~= references(tables));
        if !emit(encoded) {
            assert(tables.drop_last() =~= before);
            return Emission { taken: None, tables: Ghost(tables) };
        }
        assert(all_taken(*emit, tables)) by {
            assert forall|i: int| 0 <= i < tables.len() implies emit.ensures(
                (#[trigger] tables[i],),
                true,
            ) by {
                if i < before.len() {
                    assert(tables[i] == before[i]);
                }
            }
        }
        start = end;
        at += 1;
    }
    Emission { taken: Some(taken), tables: Ghost(tables) }
}

fn emit_ledger<Emit: Fn(EncodedTable) -> bool>(
    birth: TableBirth,
    first: u32,
    rows: &Vec<(StreamUid, LedgerCell)>,
    emit: &Emit,
) -> (emission: Emission)
    requires
        birth.wf(),
        rows@.len() <= PARTITION_PATH_OCCUPANCIES_MAX_V2,
        crate::domain::sst_ledger::ledger_ordered(crate::domain::sst_ledger::ledger_rows(rows@)),
        crate::domain::sst_ledger::cells_fit(crate::domain::sst_ledger::ledger_rows(rows@)),
        first + crate::engine::chunks::chunk_plan(
            ledger_weights(crate::domain::sst_ledger::ledger_rows(rows@)),
        ).len() <= PARTITION_BOOTSTRAP_OBJECTS_MAX_V2,
        forall|table: EncodedTable| emit.requires((table,)),
    ensures
        ({
            let said = crate::domain::sst_ledger::ledger_rows(rows@);
            let plan = crate::engine::chunks::chunk_plan(ledger_weights(said));
            &&& ledger_emitted(emission.tables@, birth, first as nat, said)
            &&& match emission.taken {
                Some(taken) => emission.tables@.len() == plan.len() && taken@ == references(
                    emission.tables@,
                ) && all_taken(*emit, emission.tables@),
                None => last_refused(*emit, emission.tables@),
            }
        }),
{
    let ghost said = crate::domain::sst_ledger::ledger_rows(rows@);
    proof {
        lemma_ledger_weights(said);
    }
    let plan: Vec<Chunk> = plan_chunks(&weigh_ledger(rows));
    let mut taken: Vec<TableRef> = Vec::new();
    let ghost mut tables: Seq<EncodedTable> = Seq::empty();
    let mut start: usize = 0;
    let mut at: usize = 0;
    assert(taken@ =~= references(tables));
    while at < plan.len()
        invariant
            at <= plan.len(),
            first + plan.len() <= PARTITION_BOOTSTRAP_OBJECTS_MAX_V2,
            birth.wf(),
            rows@.len() <= PARTITION_PATH_OCCUPANCIES_MAX_V2,
            said == crate::domain::sst_ledger::ledger_rows(rows@),
            crate::domain::sst_ledger::ledger_ordered(said),
            crate::domain::sst_ledger::cells_fit(said),
            plan@ == crate::engine::chunks::chunk_plan(ledger_weights(said)),
            forall|table: EncodedTable| emit.requires((table,)),
            start == crate::engine::chunks::chunk_start(plan@, at as int),
            tables.len() == at,
            ledger_emitted(tables, birth, first as nat, said),
            taken@ == references(tables),
            all_taken(*emit, tables),
        decreases plan.len() - at,
    {
        let ghost before = tables;
        let key = next_table_key(
            birth.partition,
            birth.generation,
            birth.attempt,
            first + at as u32,
            StoreKind::Ledger,
        );
        proof {
            lemma_ledger_chunk(said, at as int);
        }
        let end: usize = plan[at].end;
        let chunk: &[(StreamUid, LedgerCell)] = vstd::slice::slice_subrange(
            rows.as_slice(),
            start,
            end,
        );
        assert(crate::domain::sst_ledger::ledger_rows(chunk@)
            =~= crate::engine::chunks::chunk_rows(said, plan@, at as int));
        let encoded = match EncodedTable::encode_ledger(key, chunk) {
            Ok(encoded) => encoded,
            Err(_error) => {
                assert(false);
                return Emission { taken: None, tables: Ghost(tables) };
            },
        };
        proof {
            tables = tables.push(encoded);
            assert forall|i: int| 0 <= i < tables.len() implies holds_ledger(
                #[trigger] tables[i],
                birth.key((first + i) as nat, StoreKind::Ledger),
                crate::engine::chunks::chunk_rows(said, plan@, i),
            ) by {
                if i < before.len() {
                    assert(tables[i] == before[i]);
                }
            }
        }
        taken.push(encoded.table());
        assert(taken@ =~= references(tables));
        if !emit(encoded) {
            assert(tables.drop_last() =~= before);
            return Emission { taken: None, tables: Ghost(tables) };
        }
        assert(all_taken(*emit, tables)) by {
            assert forall|i: int| 0 <= i < tables.len() implies emit.ensures(
                (#[trigger] tables[i],),
                true,
            ) by {
                if i < before.len() {
                    assert(tables[i] == before[i]);
                }
            }
        }
        start = end;
        at += 1;
    }
    Emission { taken: Some(taken), tables: Ghost(tables) }
}

/// One tree of the successor: the fresh tables as its newest run, then the carried
/// runs.
pub open spec fn manifest(carried: Seq<Seq<TableRef>>, fresh: Seq<TableRef>) -> Seq<Seq<TableRef>> {
    if fresh.len() == 0 {
        carried
    } else {
        seq![fresh] + carried
    }
}

fn build_manifest(carried: Option<&TreeVersion>, tables: Vec<TableRef>) -> (tree: TreeVersion)
    requires
        tables@.len() <= PARTITION_BOOTSTRAP_OBJECTS_MAX_V2,
        carried matches Some(carried) ==> carried@.len() + (if tables@.len() > 0 {
            1int
        } else {
            0
        }) <= TREE_RUNS_MAX,
    ensures
        tree@ == manifest(
            match carried {
                Some(carried) => carried@,
                None => Seq::empty(),
            },
            tables@,
        ),
{
    let ghost kept = match carried {
        Some(carried) => carried@,
        None => Seq::<Seq<TableRef>>::empty(),
    };
    let ghost fresh = tables@;
    let mut runs: Vec<SortedRun> = Vec::new();
    if tables.len() > 0 {
        runs.push(SortedRun { tables });
    }
    let ghost front = runs@;
    if let Some(carried) = carried {
        let older = carried.runs();
        let mut at: usize = 0;
        while at < older.len()
            invariant
                at <= older.len(),
                older@ == carried.runs@,
                runs@.len() == front.len() + at,
                forall|i: int| 0 <= i < front.len() ==> #[trigger] runs@[i] == front[i],
                forall|i: int|
                    0 <= i < at ==> (#[trigger] runs@[front.len() + i])@ == older@[i]@,
            decreases older.len() - at,
        {
            runs.push(older[at].clone());
            at += 1;
        }
    }
    let tree = TreeVersion { runs };
    proof {
        let said = tree@;
        assert(said.len() == front.len() + kept.len());
        assert forall|i: int| 0 <= i < said.len() implies said[i] == manifest(kept, fresh)[i] by {
            if i < front.len() {
                assert(tree.runs@[i] == front[i]);
                assert(said[i] == fresh);
            } else {
                assert(tree.runs@[front.len() + (i - front.len())]@ == kept[i - front.len()]);
            }
        }
        assert(said =~= manifest(kept, fresh));
    }
    tree
}

/// A prepared checkpoint, ready to be published.
#[derive(Debug, PartialEq, Eq)]
pub struct PreparedCheckpoint {
    pub source: Seal,
    pub successor: Seal,
    pub snapshot: Forest,
    pub encoded_seal: EncodedAuthoritySeal,
}

impl PreparedCheckpoint {
    /// What installing the published checkpoint needs.
    pub fn into_install(self) -> (install: CheckpointInstall)
        ensures
            install.source == self.source,
            install.successor == self.successor,
            install.snapshot == self.snapshot,
    {
        CheckpointInstall {
            source: self.source,
            successor: self.successor,
            snapshot: self.snapshot,
        }
    }
}

/// A checkpoint that cannot be prepared.
#[derive(Debug, PartialEq, Eq)]
pub struct CheckpointContradiction {
    pub detail: String,
}

impl CheckpointContradiction {
    /// The message shown for this failure.
    pub fn to_string(&self) -> (message: String)
        ensures
            message@ == self.detail@,
    {
        self.detail.clone()
    }
}

impl CheckpointInput {
    /// The source is valid, the forests are, and the attempt's claim is no newer than
    /// the source.
    pub open spec fn wf(self) -> bool {
        &&& self.source.wf()
        &&& self.base.wf()
        &&& self.snapshot.wf()
        &&& self.cut.wf()
        &&& self.attempt.wf()
        &&& self.attempt.owner_claim.value <= self.source.generation.value
    }

    /// Where this checkpoint's tables are written.
    pub open spec fn birth(self) -> TableBirth {
        TableBirth {
            partition: self.source.partition,
            generation: SealGeneration { value: (self.source.generation.value + 1) as u64 },
            attempt: self.attempt,
        }
    }
}

/// The cells are what this checkpoint stores: the delta where it may join the source's
/// tables, else everything.
pub open spec fn is_planned(
    source: SealModel,
    base: ForestModel,
    snapshot: ForestModel,
    cells: CellsModel,
    carries: bool,
) -> bool {
    &&& crate::engine::delta::is_delta(
        cells,
        snapshot,
        if carries {
            base
        } else {
            ForestModel::empty()
        },
    )
    &&& forall|delta: CellsModel|
        #![trigger crate::engine::delta::is_delta(delta, snapshot, base)]
        crate::engine::delta::is_delta(delta, snapshot, base) ==> carries == cells_appendable(
            source,
            delta,
        )
}

/// The successor Seal of a checkpoint: one generation later, replaying from the cut,
/// with the fresh tables in front of the carried ones.
pub open spec fn successor_of(
    input: CheckpointInput,
    carries: bool,
    directory: Seq<TableRef>,
    ledger: Seq<TableRef>,
) -> SealModel {
    let none: Seq<Seq<TableRef>> = Seq::empty();
    SealModel {
        partition: input.source.partition,
        generation: input.birth().generation,
        replay: WalReplayPoint::Through {
            batch: input.cut,
            owner: OwnerToken { generation: input.attempt.owner_claim },
        },
        directory: manifest(
            if carries {
                input.source@.directory
            } else {
                none
            },
            directory,
        ),
        ledger: manifest(
            if carries {
                input.source@.ledger
            } else {
                none
            },
            ledger,
        ),
    }
}

/// The tables are a prefix of those that store the cells, the Directory's before the
/// Ledger's.
pub open spec fn is_emitted(
    input: CheckpointInput,
    cells: CellsModel,
    directory: Seq<EncodedTable>,
    ledger: Seq<EncodedTable>,
) -> bool {
    &&& directory_emitted(directory, input.birth(), 0, cells.directory)
    &&& ledger_emitted(ledger, input.birth(), directory.len(), cells.ledger)
    &&& ledger.len() > 0 ==> directory.len() == crate::engine::chunks::chunk_plan(
        directory_weights(cells.directory.len()),
    ).len()
}

/// The checkpoint that `input` is prepared as, with all its tables; its cut advances
/// the source's.
pub open spec fn is_prepared(
    input: CheckpointInput,
    cells: CellsModel,
    carries: bool,
    directory: Seq<EncodedTable>,
    ledger: Seq<EncodedTable>,
    prepared: PreparedCheckpoint,
) -> bool {
    &&& input.cut.value > input.source@.replay.covered()
    &&& is_planned(input.source@, input.base@, input.snapshot@, cells, carries)
    &&& is_emitted(input, cells, directory, ledger)
    &&& directory.len() == crate::engine::chunks::chunk_plan(
        directory_weights(cells.directory.len()),
    ).len()
    &&& ledger.len() == crate::engine::chunks::chunk_plan(ledger_weights(cells.ledger)).len()
    &&& prepared.source@ == input.source@
    &&& prepared.snapshot@ == input.snapshot@
    &&& prepared.successor@ == successor_of(
        input,
        carries,
        references(directory),
        references(ledger),
    )
    &&& prepared.successor.wf()
    &&& crate::engine::base_load::sources_fit(prepared.successor@)
    &&& prepared.encoded_seal.encoded.seal@ == prepared.successor@
    &&& prepared.encoded_seal.encoded.agrees()
}

proof fn lemma_tables_bytes_join(left: Seq<TableRef>, right: Seq<TableRef>)
    ensures
        crate::engine::base_load::tables_bytes(left + right)
            == crate::engine::base_load::tables_bytes(left)
            + crate::engine::base_load::tables_bytes(right),
    decreases right.len(),
{
    if right.len() == 0 {
        assert(left + right =~= left);
    } else {
        lemma_tables_bytes_join(left, right.drop_last());
        assert((left + right).drop_last() =~= left + right.drop_last());
    }
}

/// Fresh tables are no longer than they were charged.
proof fn lemma_fresh_bytes(tables: Seq<EncodedTable>, plan: Seq<Chunk>)
    requires
        tables.len() == plan.len(),
        forall|i: int|
            0 <= i < tables.len() ==> (#[trigger] tables[i]).table.object_bytes <= plan[i].bytes,
    ensures
        crate::engine::base_load::tables_bytes(references(tables))
            <= crate::engine::chunks::plan_bytes(plan),
    decreases tables.len(),
{
    if tables.len() > 0 {
        let rest = tables.drop_last();
        assert forall|i: int| 0 <= i < rest.len() implies (#[trigger] rest[i]).table.object_bytes
            <= plan.drop_last()[i].bytes by {
            assert(rest[i] == tables[i]);
        }
        lemma_fresh_bytes(rest, plan.drop_last());
        assert(references(tables).drop_last() =~= references(rest));
    }
}

/// Fresh tables carry their keys and are valid.
pub open spec fn fresh_tables(
    tables: Seq<EncodedTable>,
    birth: TableBirth,
    first: nat,
    store: StoreKind,
) -> bool {
    forall|i: int|
        0 <= i < tables.len() ==> (#[trigger] tables[i]).key == birth.key((first + i) as nat, store)
            && tables[i].agrees()
}

/// One tree of the successor is valid and takes its tables from its parts.
proof fn lemma_successor_tree(
    carried: Seq<Seq<TableRef>>,
    tables: Seq<EncodedTable>,
    birth: TableBirth,
    first: nat,
    store: StoreKind,
    source: SealGeneration,
)
    requires
        birth.wf(),
        source.value < birth.generation.value,
        crate::domain::seal::tree_wf(carried),
        crate::domain::seal::tables_error(
            crate::domain::seal::tree_tables(carried),
            store,
            source,
        ) is None,
        fresh_tables(tables, birth, first, store),
        first + tables.len() <= PARTITION_BOOTSTRAP_OBJECTS_MAX_V2,
        carried.len() + (if tables.len() > 0 {
            1int
        } else {
            0
        }) <= TREE_RUNS_MAX,
    ensures
        ({
            let tree = manifest(carried, references(tables));
            &&& crate::domain::seal::tree_wf(tree)
            &&& crate::domain::seal::tree_tables(tree) == references(tables)
                + crate::domain::seal::tree_tables(carried)
            &&& crate::domain::seal::tables_error(
                crate::domain::seal::tree_tables(tree),
                store,
                birth.generation,
            ) is None
        }),
{
    let fresh = references(tables);
    let tree = manifest(carried, fresh);
    assert forall|i: int| 0 <= i < fresh.len() implies (#[trigger] fresh[i]).wf()
        && crate::domain::seal::table_error(fresh[i], store, birth.generation) is None by {
        assert(fresh[i] == tables[i].table);
        assert(tables[i].key == birth.key((first + i) as nat, store) && tables[i].agrees());
    }
    crate::domain::seal::lemma_tables_error_each(fresh, store, birth.generation);
    crate::domain::seal::lemma_tables_error_later(
        crate::domain::seal::tree_tables(carried),
        store,
        source,
        birth.generation,
    );
    crate::domain::seal::lemma_tables_error_join(
        fresh,
        crate::domain::seal::tree_tables(carried),
        store,
        birth.generation,
    );
    if fresh.len() == 0 {
        assert(fresh + crate::domain::seal::tree_tables(carried)
            =~= crate::domain::seal::tree_tables(carried));
    } else {
        crate::domain::seal::lemma_tree_tables_join(seq![fresh], carried);
        assert(crate::domain::seal::tree_tables(seq![fresh]) =~= fresh) by {
            assert(seq![fresh].drop_last() =~= Seq::<Seq<TableRef>>::empty());
            reveal_with_fuel(crate::domain::seal::tree_tables, 2);
        }
        assert forall|r: int| 0 <= r < tree.len() implies crate::domain::seal::run_wf(
            #[trigger] tree[r],
        ) by {
            if r > 0 {
                assert(tree[r] == carried[r - 1]);
            }
        }
    }
}

/// Fresh objects differ from each other and from every carried object.
proof fn lemma_successor_distinct(
    carried_directory: Seq<TableRef>,
    carried_ledger: Seq<TableRef>,
    directory: Seq<EncodedTable>,
    ledger: Seq<EncodedTable>,
    birth: TableBirth,
    source: SealGeneration,
)
    requires
        source.value < birth.generation.value,
        crate::domain::seal::objects_distinct(carried_directory + carried_ledger),
        crate::domain::seal::tables_error(carried_directory, StoreKind::Directory, source) is None,
        crate::domain::seal::tables_error(carried_ledger, StoreKind::Ledger, source) is None,
        fresh_tables(directory, birth, 0, StoreKind::Directory),
        fresh_tables(ledger, birth, directory.len(), StoreKind::Ledger),
        directory.len() + ledger.len() <= PARTITION_BOOTSTRAP_OBJECTS_MAX_V2,
    ensures
        crate::domain::seal::objects_distinct(
            (references(directory) + carried_directory) + (references(ledger) + carried_ledger),
        ),
{
    let d = references(directory);
    let l = references(ledger);
    let all = (d + carried_directory) + (l + carried_ledger);
    let old = carried_directory + carried_ledger;
    assert forall|i: int, j: int| 0 <= i < j < all.len() implies (#[trigger] all[i]).object != (
    #[trigger] all[j]).object by {
        let a = d.len() as int;
        let b = a + carried_directory.len();
        let c = b + l.len();
        lemma_all_part(all, directory, ledger, carried_directory, carried_ledger, birth, source, i);
        lemma_all_part(all, directory, ledger, carried_directory, carried_ledger, birth, source, j);
        let old_i = if i < b {
            i - a
        } else {
            i - c + carried_directory.len()
        };
        let old_j = if j < b {
            j - a
        } else {
            j - c + carried_directory.len()
        };
        if (a <= i < b || c <= i) && (a <= j < b || c <= j) {
            assert(old[old_i] == all[i] && old[old_j] == all[j]);
        }
    }
}

proof fn lemma_all_part(
    all: Seq<TableRef>,
    directory: Seq<EncodedTable>,
    ledger: Seq<EncodedTable>,
    carried_directory: Seq<TableRef>,
    carried_ledger: Seq<TableRef>,
    birth: TableBirth,
    source: SealGeneration,
    i: int,
)
    requires
        all == (references(directory) + carried_directory) + (references(ledger) + carried_ledger),
        0 <= i < all.len(),
        source.value < birth.generation.value,
        crate::domain::seal::tables_error(carried_directory, StoreKind::Directory, source) is None,
        crate::domain::seal::tables_error(carried_ledger, StoreKind::Ledger, source) is None,
        fresh_tables(directory, birth, 0, StoreKind::Directory),
        fresh_tables(ledger, birth, directory.len(), StoreKind::Ledger),
        directory.len() + ledger.len() <= PARTITION_BOOTSTRAP_OBJECTS_MAX_V2,
    ensures
        ({
            let a = directory.len() as int;
            let b = a + carried_directory.len();
            let c = b + ledger.len();
            if i < a {
                all[i].object.fresh.birth_generation == birth.generation
                    && all[i].object.fresh.ordinal == i
            } else if i < b {
                all[i].object.fresh.birth_generation.value < birth.generation.value
            } else if i < c {
                all[i].object.fresh.birth_generation == birth.generation
                    && all[i].object.fresh.ordinal == a + (i - b)
            } else {
                all[i].object.fresh.birth_generation.value < birth.generation.value
            }
        }),
{
    let a = directory.len() as int;
    let b = a + carried_directory.len();
    let c = b + ledger.len();
    if i < a {
        assert(all[i] == directory[i].table);
        assert(directory[i].agrees());
    } else if i < b {
        assert(all[i] == carried_directory[i - a]);
        crate::domain::seal::lemma_tables_error_none(
            carried_directory,
            StoreKind::Directory,
            source,
            i - a,
        );
    } else if i < c {
        assert(all[i] == ledger[i - b].table);
        assert(ledger[i - b].agrees());
    } else {
        assert(all[i] == carried_ledger[i - c]);
        crate::domain::seal::lemma_tables_error_none(
            carried_ledger,
            StoreKind::Ledger,
            source,
            i - c,
        );
    }
}

/// The successor that a complete emission leads to is a valid Seal that the next
/// bootstrap can load.
proof fn lemma_successor_valid(
    input: CheckpointInput,
    cells: CellsModel,
    carries: bool,
    directory: Seq<EncodedTable>,
    ledger: Seq<EncodedTable>,
)
    requires
        input.wf(),
        input.source.generation.value < u64::MAX,
        cells.directory.len() <= PARTITION_PATH_OCCUPANCIES_MAX_V2,
        cells.ledger.len() <= PARTITION_PATH_OCCUPANCIES_MAX_V2,
        crate::domain::sst_directory::directory_ordered(cells.directory),
        crate::domain::sst_directory::paths_fit(cells.directory),
        crate::domain::sst_ledger::ledger_ordered(cells.ledger),
        crate::domain::sst_ledger::cells_fit(cells.ledger),
        carries ==> cells_appendable(input.source@, cells),
        is_emitted(input, cells, directory, ledger),
        directory.len() == crate::engine::chunks::chunk_plan(
            directory_weights(cells.directory.len()),
        ).len(),
        ledger.len() == crate::engine::chunks::chunk_plan(ledger_weights(cells.ledger)).len(),
    ensures
        ({
            let successor = successor_of(
                input,
                carries,
                references(directory),
                references(ledger),
            );
            &&& successor.wf()
            &&& crate::engine::base_load::sources_fit(successor)
            &&& crate::domain::seal_codec::seal_estimate(successor) <= 100_000
        }),
{
    let source = input.source@;
    let birth = input.birth();
    let none: Seq<Seq<TableRef>> = Seq::empty();
    let old_directory = if carries {
        source.directory
    } else {
        none
    };
    let old_ledger = if carries {
        source.ledger
    } else {
        none
    };
    let d_plan = crate::engine::chunks::chunk_plan(directory_weights(cells.directory.len()));
    let l_plan = crate::engine::chunks::chunk_plan(ledger_weights(cells.ledger));
    law_full_rewrite_fits(cells);
    assert(d_plan.len() as usize == d_plan.len());
    assert(l_plan.len() as usize == l_plan.len());
    assert(crate::engine::chunks::plan_bytes(d_plan) as u64 == crate::engine::chunks::plan_bytes(
        d_plan,
    ));
    assert(crate::engine::chunks::plan_bytes(l_plan) as u64 == crate::engine::chunks::plan_bytes(
        l_plan,
    ));
    assert(fresh_tables(directory, birth, 0, StoreKind::Directory));
    assert(fresh_tables(ledger, birth, directory.len(), StoreKind::Ledger));
    assert(crate::domain::seal::tree_tables(none) =~= Seq::<TableRef>::empty());
    lemma_successor_tree(
        old_directory,
        directory,
        birth,
        0,
        StoreKind::Directory,
        source.generation,
    );
    lemma_successor_tree(
        old_ledger,
        ledger,
        birth,
        directory.len(),
        StoreKind::Ledger,
        source.generation,
    );
    let kept_directory = crate::domain::seal::tree_tables(old_directory);
    let kept_ledger = crate::domain::seal::tree_tables(old_ledger);
    assert(crate::domain::seal::objects_distinct(kept_directory + kept_ledger)) by {
        if !carries {
            assert((kept_directory + kept_ledger).len() == 0);
        }
    }
    lemma_successor_distinct(
        kept_directory,
        kept_ledger,
        directory,
        ledger,
        birth,
        source.generation,
    );
    let successor = successor_of(input, carries, references(directory), references(ledger));
    assert(successor.tables() == (references(directory) + kept_directory) + (references(ledger)
        + kept_ledger));
    assert forall|i: int| 0 <= i < directory.len() implies (
    #[trigger] directory[i]).table.object_bytes <= d_plan[i].bytes by {
        lemma_directory_chunk(cells.directory, i);
    }
    assert forall|i: int| 0 <= i < ledger.len() implies (#[trigger] ledger[i]).table.object_bytes
        <= l_plan[i].bytes by {
        lemma_ledger_chunk(cells.ledger, i);
    }
    lemma_fresh_bytes(directory, d_plan);
    lemma_fresh_bytes(ledger, l_plan);
    lemma_tables_bytes_join(references(directory), kept_directory);
    lemma_tables_bytes_join(references(ledger), kept_ledger);
    lemma_tables_bytes_join(
        references(directory) + kept_directory,
        references(ledger) + kept_ledger,
    );
    lemma_tables_bytes_join(kept_directory, kept_ledger);
    if !carries {
        assert(kept_directory + kept_ledger =~= Seq::<TableRef>::empty());
    }
}

/// A prepared checkpoint advances its source by one generation and by at least one
/// coordinate, so its publication can be collected after.
pub proof fn law_prepared_checkpoint_advances(
    input: CheckpointInput,
    cells: CellsModel,
    carries: bool,
    directory: Seq<EncodedTable>,
    ledger: Seq<EncodedTable>,
    prepared: PreparedCheckpoint,
)
    requires
        input.wf(),
        input.source.generation.value < u64::MAX,
        is_prepared(input, cells, carries, directory, ledger, prepared),
    ensures
        crate::engine::collection::advances(prepared.source@, prepared.successor@),
{
}

fn plan_checkpoint(source: &Seal, base: &Forest, snapshot: &Forest) -> (planned: (
    ForestDelta,
    bool,
))
    requires
        base.wf(),
        snapshot.wf(),
    ensures
        is_planned(source@, base@, snapshot@, planned.0@, planned.1),
        planned.1 ==> cells_appendable(source@, planned.0@),
{
    let delta = snapshot.delta_since(base);
    proof {
        lemma_delta_fits(delta@, snapshot@, base@);
        assert forall|other: CellsModel|
            #![trigger crate::engine::delta::is_delta(other, snapshot@, base@)]
            crate::engine::delta::is_delta(other, snapshot@, base@) implies other == delta@ by {
            crate::engine::delta::lemma_delta_unique(other, delta@, snapshot@, base@);
        }
    }
    if can_append_delta(source, &delta) {
        return (delta, true);
    }
    (snapshot.checkpoint_cells(), false)
}

/// Prepares the successor of `input.source` that stores `input.snapshot`, and hands
/// every table to `emit` as soon as it is encoded; the first table that is refused
/// ends the preparation.
///
/// Fails, before anything is handed out, where the cut does not advance the source's
/// and where the source's generation has no successor.
pub fn prepare_checkpoint<Emit: Fn(EncodedTable) -> bool>(input: CheckpointInput, emit: &Emit) -> (
    prepared: Result<Option<PreparedCheckpoint>, CheckpointContradiction>)
    requires
        input.wf(),
        forall|table: EncodedTable| emit.requires((table,)),
    ensures
        input.cut.value <= input.source@.replay.covered() ==> (prepared matches Err(error)
            && error.detail@ == "checkpoint cut does not advance the Seal replay cut"@),
        input.cut.value > input.source@.replay.covered() ==> match prepared {
            Err(error) => input.source.generation.value == u64::MAX && error.detail@
                == "storage coordinate is exhausted"@,
            Ok(Some(prepared)) => {
                &&& input.source.generation.value < u64::MAX
                &&& exists|
                    cells: CellsModel,
                    carries: bool,
                    directory: Seq<EncodedTable>,
                    ledger: Seq<EncodedTable>,
                | #[trigger]
                    is_prepared(input, cells, carries, directory, ledger, prepared) && all_taken(
                        *emit,
                        directory + ledger,
                    )
            },
            Ok(None) => {
                &&& input.source.generation.value < u64::MAX
                &&& exists|
                    cells: CellsModel,
                    carries: bool,
                    directory: Seq<EncodedTable>,
                    ledger: Seq<EncodedTable>,
                | #[trigger]
                    is_planned(input.source@, input.base@, input.snapshot@, cells, carries)
                        && #[trigger] is_emitted(input, cells, directory, ledger) && last_refused(
                        *emit,
                        directory + ledger,
                    )
            },
        },
{
    let covered: u64 = match input.source.replay().batch() {
        Some(batch) => batch.value,
        None => 0,
    };
    if input.cut.value <= covered {
        return Err(
            CheckpointContradiction {
                detail: String::from_str("checkpoint cut does not advance the Seal replay cut"),
            },
        );
    }
    let generation = match input.source.generation().successor() {
        Ok(generation) => generation,
        Err(exhausted) => {
            return Err(CheckpointContradiction { detail: exhausted.to_string() });
        },
    };
    let birth = TableBirth {
        partition: input.source.partition(),
        generation,
        attempt: input.attempt,
    };
    assert(birth == input.birth());
    let planned = plan_checkpoint(&input.source, &input.base, &input.snapshot);
    let carries = planned.1;
    let cells = planned.0;
    proof {
        if carries {
            lemma_delta_fits(cells@, input.snapshot@, input.base@);
        } else {
            ForestModel::law_empty_is_valid();
            lemma_delta_fits(cells@, input.snapshot@, ForestModel::empty());
        }
        law_full_rewrite_fits(cells@);
    }
    let none: Ghost<Seq<EncodedTable>> = Ghost(Seq::empty());
    let directory = emit_directory(birth, &cells.directory, emit);
    let directory_tables = match directory.taken {
        Some(taken) => taken,
        None => {
            proof {
                assert(directory.tables@ + none@ =~= directory.tables@);
                assert(is_emitted(input, cells@, directory.tables@, none@));
            }
            return Ok(None);
        },
    };
    let ledger = emit_ledger(birth, directory_tables.len() as u32, &cells.ledger, emit);
    let ledger_tables = match ledger.taken {
        Some(taken) => taken,
        None => {
            proof {
                let all = directory.tables@ + ledger.tables@;
                assert(is_emitted(input, cells@, directory.tables@, ledger.tables@));
                assert(all.drop_last() =~= directory.tables@ + ledger.tables@.drop_last());
                assert forall|i: int| 0 <= i < all.drop_last().len() implies emit.ensures(
                    (#[trigger] all.drop_last()[i],),
                    true,
                ) by {
                    if i < directory.tables@.len() {
                        assert(all.drop_last()[i] == directory.tables@[i]);
                    } else {
                        assert(all.drop_last()[i] == ledger.tables@.drop_last()[i
                            - directory.tables@.len()]);
                    }
                }
                assert(last_refused(*emit, all));
            }
            return Ok(None);
        },
    };
    proof {
        assert(is_emitted(input, cells@, directory.tables@, ledger.tables@));
        lemma_successor_valid(input, cells@, carries, directory.tables@, ledger.tables@);
        assert(all_taken(*emit, directory.tables@ + ledger.tables@)) by {
            let all = directory.tables@ + ledger.tables@;
            assert forall|i: int| 0 <= i < all.len() implies emit.ensures(
                (#[trigger] all[i],),
                true,
            ) by {
                if i < directory.tables@.len() {
                    assert(all[i] == directory.tables@[i]);
                } else {
                    assert(all[i] == ledger.tables@[i - directory.tables@.len()]);
                }
            }
        }
    }
    let carried_directory = if carries {
        Some(input.source.directory())
    } else {
        None
    };
    let carried_ledger = if carries {
        Some(input.source.ledger())
    } else {
        None
    };
    let successor = Seal {
        partition: birth.partition,
        generation,
        replay: WalReplayPoint::Through {
            batch: input.cut,
            owner: OwnerToken::from(input.attempt.owner_claim()),
        },
        directory: build_manifest(carried_directory, directory_tables),
        ledger: build_manifest(carried_ledger, ledger_tables),
    };
    let encoded_seal = match EncodedAuthoritySeal::new(&successor) {
        Ok(encoded) => encoded,
        Err(_error) => {
            assert(false);
            return Ok(None);
        },
    };
    let prepared = PreparedCheckpoint {
        source: input.source,
        successor,
        snapshot: input.snapshot,
        encoded_seal,
    };
    proof {
        assert(is_prepared(
            input,
            cells@,
            carries,
            directory.tables@,
            ledger.tables@,
            prepared,
        ));
    }
    Ok(Some(prepared))
}

} // verus!
