//! Bounded loading of the admission base from Seal-selected tables.

use vstd::prelude::*;

use crate::domain::bounds::{
    DIRECTORY_ROW_LOGICAL_BYTES_MAX, LEDGER_VALUE_ROW_LOGICAL_BYTES_MAX,
    PARTITION_BOOTSTRAP_BYTES_MAX_V2, PARTITION_BOOTSTRAP_OBJECTS_MAX_V2,
    PARTITION_RESIDENT_LOGICAL_BYTES_MAX_V2, TREE_RUNS_MAX,
};
use crate::domain::candidate::{DecodedTable, RowsModel};
use crate::domain::coordinate::StreamUid;
use crate::domain::directory::{DirectoryEntry, DirectoryKey};
use crate::domain::ledger::{LedgerCell, RecordModel};
use crate::domain::seal::{Seal, SealModel, TableRef, TreeVersion};
use crate::domain::text::copy_bytes;
use crate::engine::bootstrap_exit::{contradiction, BootstrapExit, ExitModel};
use crate::engine::forest::{Forest, ForestContradiction, ForestModel};
use crate::engine::ordered::{DirectoryRows, LedgerRows};

verus! {

/// The tables of one sorted run.
#[derive(Debug, PartialEq, Eq)]
pub struct PlannedRun {
    pub tables: Vec<TableRef>,
}

impl View for PlannedRun {
    type V = Seq<TableRef>;

    open spec fn view(&self) -> Seq<TableRef> {
        self.tables@
    }
}

/// The runs to load, oldest first, so that newer rows replace older ones.
#[derive(Debug, PartialEq, Eq)]
pub struct BootstrapPlan {
    pub directory: Vec<PlannedRun>,
    pub ledger: Vec<PlannedRun>,
}

/// What planned runs say.
pub open spec fn runs_model(runs: Seq<PlannedRun>) -> Seq<Seq<TableRef>> {
    runs.map(|_i: int, run: PlannedRun| run@)
}

/// What a plan says.
pub struct PlanModel {
    pub directory: Seq<Seq<TableRef>>,
    pub ledger: Seq<Seq<TableRef>>,
}

impl View for BootstrapPlan {
    type V = PlanModel;

    open spec fn view(&self) -> PlanModel {
        PlanModel { directory: runs_model(self.directory@), ledger: runs_model(self.ledger@) }
    }
}

/// The complete length of tables together.
pub open spec fn tables_bytes(tables: Seq<TableRef>) -> nat
    decreases tables.len(),
{
    if tables.len() == 0 {
        0
    } else {
        tables_bytes(tables.drop_last()) + tables.last().object_bytes as nat
    }
}

/// The selected tables are few enough and short enough together.
pub open spec fn sources_fit(seal: SealModel) -> bool {
    &&& seal.tables().len() <= PARTITION_BOOTSTRAP_OBJECTS_MAX_V2
    &&& tables_bytes(seal.tables()) <= PARTITION_BOOTSTRAP_BYTES_MAX_V2
}

/// Each tree's runs, oldest first.
pub open spec fn plan_of(seal: SealModel) -> PlanModel {
    PlanModel { directory: seal.directory.reverse(), ledger: seal.ledger.reverse() }
}

pub open spec fn source_bound() -> ExitModel {
    ExitModel::Contradiction(
        "Seal-selected table sources exceed a V2 aggregate bootstrap bound"@,
    )
}

pub proof fn lemma_tables_bytes_prefix(tables: Seq<TableRef>, count: int)
    requires
        0 <= count <= tables.len(),
    ensures
        tables_bytes(tables.take(count)) <= tables_bytes(tables),
    decreases tables.len() - count,
{
    if count == tables.len() {
        assert(tables.take(count) =~= tables);
    } else {
        lemma_tables_bytes_prefix(tables, count + 1);
        assert(tables.take(count + 1).drop_last() =~= tables.take(count));
    }
}

/// Holds the selected tables to the aggregate bounds before anything is loaded, and
/// plans their loading.
pub fn plan_bootstrap_sources(seal: &Seal) -> (plan: Result<BootstrapPlan, BootstrapExit>)
    ensures
        match plan {
            Ok(plan) => sources_fit(seal@) && plan@ == plan_of(seal@),
            Err(exit) => !sources_fit(seal@) && exit@ == source_bound(),
        },
{
    let tables = seal.tables();
    if tables.len() > PARTITION_BOOTSTRAP_OBJECTS_MAX_V2 {
        return Err(bootstrap_source_bound());
    }
    let mut bytes: u64 = 0;
    let mut at: usize = 0;
    assert(tables@.take(0) =~= Seq::empty());
    while at < tables.len()
        invariant
            at <= tables.len(),
            tables@ == seal@.tables(),
            bytes == tables_bytes(tables@.take(at as int)),
        decreases tables.len() - at,
    {
        proof {
            assert(tables@.take(at + 1).drop_last() =~= tables@.take(at as int));
            lemma_tables_bytes_prefix(tables@, at + 1);
        }
        match bytes.checked_add(tables[at].object_bytes()) {
            Some(total) => {
                bytes = total;
            },
            None => {
                return Err(bootstrap_source_bound());
            },
        }
        at += 1;
    }
    assert(tables@.take(at as int) =~= tables@);
    if bytes > PARTITION_BOOTSTRAP_BYTES_MAX_V2 {
        return Err(bootstrap_source_bound());
    }
    Ok(BootstrapPlan { directory: plan_tree(seal.directory()), ledger: plan_tree(seal.ledger()) })
}

fn bootstrap_source_bound() -> (exit: BootstrapExit)
    ensures
        exit@ == source_bound(),
{
    contradiction("Seal-selected table sources exceed a V2 aggregate bootstrap bound")
}

/// A tree's runs, oldest first.
fn plan_tree(tree: &TreeVersion) -> (runs: Vec<PlannedRun>)
    ensures
        runs_model(runs@) == tree@.reverse(),
{
    let count: usize = tree.runs.len();
    let mut runs: Vec<PlannedRun> = Vec::new();
    let mut at: usize = 0;
    while at < count
        invariant
            at <= count == tree.runs.len(),
            runs@.len() == at,
            forall|i: int| 0 <= i < at ==> (#[trigger] runs@[i])@ == tree@.reverse()[i],
        decreases count - at,
    {
        let copy = tree.runs[count - 1 - at].clone();
        runs.push(PlannedRun { tables: copy.tables });
        at += 1;
    }
    assert(runs_model(runs@) =~= tree@.reverse());
    runs
}

/// Newest-wins rows and what they are charged.
#[derive(Debug, PartialEq, Eq)]
pub struct MergedRows {
    pub directory: DirectoryRows,
    pub ledger: LedgerRows,
    pub resident_bytes: u64,
}

/// What merged rows say.
pub struct MergedModel {
    pub rows: ForestModel,
    pub resident_bytes: u64,
}

impl View for MergedRows {
    type V = MergedModel;

    open spec fn view(&self) -> MergedModel {
        MergedModel {
            rows: ForestModel { directory: self.directory@, ledger: self.ledger@ },
            resident_bytes: self.resident_bytes,
        }
    }
}

/// The account after one more charge; none beyond the resident bound.
pub open spec fn charged(current: u64, additional: u64) -> Option<u64> {
    if current + additional > PARTITION_RESIDENT_LOGICAL_BYTES_MAX_V2 {
        None
    } else {
        Some((current + additional) as u64)
    }
}

impl MergedModel {
    pub open spec fn empty() -> Self {
        MergedModel { rows: ForestModel::empty(), resident_bytes: 0 }
    }

    /// The account charges the worst case for every resident row.
    pub open spec fn wf(self) -> bool {
        &&& self.rows.fits()
        &&& self.rows.directory.dom().finite()
        &&& self.rows.ledger.dom().finite()
        &&& self.resident_bytes == self.rows.directory.dom().len()
            * DIRECTORY_ROW_LOGICAL_BYTES_MAX + self.rows.ledger.dom().len()
            * LEDGER_VALUE_ROW_LOGICAL_BYTES_MAX
        &&& self.resident_bytes <= PARTITION_RESIDENT_LOGICAL_BYTES_MAX_V2
    }

    /// The rows after one Directory row; none beyond the resident bound.
    pub open spec fn with_entry(self, row: (Seq<u8>, DirectoryEntry)) -> Option<Self> {
        let rows = ForestModel {
            directory: self.rows.directory.insert(row.0, row.1),
            ledger: self.rows.ledger,
        };
        if self.rows.directory.dom().contains(row.0) {
            Some(MergedModel { rows, resident_bytes: self.resident_bytes })
        } else {
            match charged(self.resident_bytes, DIRECTORY_ROW_LOGICAL_BYTES_MAX) {
                Some(resident_bytes) => Some(MergedModel { rows, resident_bytes }),
                None => None,
            }
        }
    }

    /// The rows after Directory rows, in order.
    pub open spec fn with_entries(self, rows: Seq<(Seq<u8>, DirectoryEntry)>) -> Option<Self>
        decreases rows.len(),
    {
        if rows.len() == 0 {
            Some(self)
        } else {
            match self.with_entries(rows.drop_last()) {
                Some(before) => before.with_entry(rows.last()),
                None => None,
            }
        }
    }

    /// The rows after one Ledger row; none beyond the resident bound.
    pub open spec fn with_cell(self, row: (StreamUid, Option<RecordModel>)) -> Option<Self> {
        let held = self.rows.ledger.dom().contains(row.0.value);
        match row.1 {
            Some(record) => {
                let rows = ForestModel {
                    directory: self.rows.directory,
                    ledger: self.rows.ledger.insert(row.0.value, record),
                };
                if held {
                    Some(MergedModel { rows, resident_bytes: self.resident_bytes })
                } else {
                    match charged(self.resident_bytes, LEDGER_VALUE_ROW_LOGICAL_BYTES_MAX) {
                        Some(resident_bytes) => Some(MergedModel { rows, resident_bytes }),
                        None => None,
                    }
                }
            },
            None => {
                let rows = ForestModel {
                    directory: self.rows.directory,
                    ledger: self.rows.ledger.remove(row.0.value),
                };
                let released = if held {
                    LEDGER_VALUE_ROW_LOGICAL_BYTES_MAX
                } else {
                    0
                };
                Some(
                    MergedModel { rows, resident_bytes: (self.resident_bytes - released) as u64 },
                )
            },
        }
    }

    /// The rows after Ledger rows, in order.
    pub open spec fn with_cells(self, rows: Seq<(StreamUid, Option<RecordModel>)>) -> Option<Self>
        decreases rows.len(),
    {
        if rows.len() == 0 {
            Some(self)
        } else {
            match self.with_cells(rows.drop_last()) {
                Some(before) => before.with_cell(rows.last()),
                None => None,
            }
        }
    }

    /// The newest Directory row of a path wins: every merged row is what its path
    /// holds, and every other path keeps what it held.
    pub proof fn law_newest_entries_win(
        self,
        rows: Seq<(Seq<u8>, DirectoryEntry)>,
        path: Seq<u8>,
    )
        requires
            crate::domain::sst_directory::directory_ordered(rows),
            self.with_entries(rows) is Some,
        ensures
            ({
                let after = self.with_entries(rows)->0.rows;
                &&& after.ledger == self.rows.ledger
                &&& forall|i: int|
                    0 <= i < rows.len() && (#[trigger] rows[i]).0 == path
                        ==> after.directory.dom().contains(path) && after.directory[path]
                        == rows[i].1
                &&& (forall|i: int| 0 <= i < rows.len() ==> (#[trigger] rows[i]).0 != path) ==> {
                    &&& after.directory.dom().contains(path)
                        == self.rows.directory.dom().contains(path)
                    &&& after.directory[path] == self.rows.directory[path]
                }
            }),
        decreases rows.len(),
    {
        if rows.len() > 0 {
            let rest = rows.drop_last();
            assert forall|i: int, j: int| 0 <= i < j < rest.len() implies crate::domain::text::bytes_less(
                (#[trigger] rest[i]).0,
                (#[trigger] rest[j]).0,
            ) by {
                assert(rest[i] == rows[i] && rest[j] == rows[j]);
            }
            self.law_newest_entries_win(rest, path);
            let last = rows.len() - 1;
            assert forall|i: int| 0 <= i < last implies (#[trigger] rows[i]).0 != rows[last].0 by {
                assert(crate::domain::text::bytes_less(rows[i].0, rows[last].0));
                crate::domain::text::lemma_bytes_less_asymmetric(rows[i].0, rows[last].0);
            }
            assert forall|i: int| 0 <= i < rest.len() implies rest[i] == #[trigger] rows[i] by {}
            if rows[last].0 != path {
                assert((forall|i: int| 0 <= i < rest.len() ==> (#[trigger] rest[i]).0 != path)
                    <== (forall|i: int| 0 <= i < rows.len() ==> (#[trigger] rows[i]).0 != path));
            }
        }
    }

    /// The newest Ledger row of a stream wins: a merged record is what its stream
    /// holds, a merged delete leaves its stream without one, and every other stream
    /// keeps what it held.
    pub proof fn law_newest_cells_win(
        self,
        rows: Seq<(StreamUid, Option<RecordModel>)>,
        uid: StreamUid,
    )
        requires
            crate::domain::sst_ledger::ledger_ordered(rows),
            self.with_cells(rows) is Some,
        ensures
            ({
                let after = self.with_cells(rows)->0.rows;
                &&& after.directory == self.rows.directory
                &&& forall|i: int|
                    0 <= i < rows.len() && (#[trigger] rows[i]).0 == uid ==> match rows[i].1 {
                        Some(record) => after.ledger.dom().contains(uid.value)
                            && after.ledger[uid.value] == record,
                        None => !after.ledger.dom().contains(uid.value),
                    }
                &&& (forall|i: int| 0 <= i < rows.len() ==> (#[trigger] rows[i]).0 != uid) ==> {
                    &&& after.ledger.dom().contains(uid.value)
                        == self.rows.ledger.dom().contains(uid.value)
                    &&& after.ledger.dom().contains(uid.value) ==> after.ledger[uid.value]
                        == self.rows.ledger[uid.value]
                }
            }),
        decreases rows.len(),
    {
        if rows.len() > 0 {
            let rest = rows.drop_last();
            assert forall|i: int, j: int| 0 <= i < j < rest.len() implies (
            #[trigger] rest[i]).0.value < (#[trigger] rest[j]).0.value by {
                assert(rest[i] == rows[i] && rest[j] == rows[j]);
            }
            self.law_newest_cells_win(rest, uid);
            let last = rows.len() - 1;
            assert forall|i: int| 0 <= i < last implies (#[trigger] rows[i]).0 != rows[last].0 by {
                assert(rows[i].0.value < rows[last].0.value);
            }
            assert forall|i: int| 0 <= i < rest.len() implies rest[i] == #[trigger] rows[i] by {}
            if rows[last].0 != uid {
                assert(rows[last].0.value != uid.value);
                assert((forall|i: int| 0 <= i < rest.len() ==> (#[trigger] rest[i]).0 != uid)
                    <== (forall|i: int| 0 <= i < rows.len() ==> (#[trigger] rows[i]).0 != uid));
            }
        }
    }
}

pub open spec fn resident_bound_exit() -> ExitModel {
    ExitModel::Contradiction(
        "merged Directory and Ledger rows exceed the V2 resident logical-byte bound"@,
    )
}

fn resident_bound() -> (exit: BootstrapExit)
    ensures
        exit@ == resident_bound_exit(),
{
    contradiction("merged Directory and Ledger rows exceed the V2 resident logical-byte bound")
}

/// Charges resident bytes, up to the resident bound.
pub fn add_resident_bytes(current: u64, additional: u64) -> (total: Result<u64, BootstrapExit>)
    ensures
        match total {
            Ok(total) => charged(current, additional) == Some(total),
            Err(exit) => charged(current, additional) is None && exit@ == resident_bound_exit(),
        },
{
    match current.checked_add(additional) {
        Some(total) => if total > PARTITION_RESIDENT_LOGICAL_BYTES_MAX_V2 {
            Err(resident_bound())
        } else {
            Ok(total)
        },
        None => Err(resident_bound()),
    }
}

/// What merging one Directory table gives: the rows after it and its last path.
/// Tables within one run ascend without overlap.
pub open spec fn spec_merge_directory_table(
    merged: MergedModel,
    previous_last: Option<Seq<u8>>,
    rows: Seq<(Seq<u8>, DirectoryEntry)>,
) -> Result<(MergedModel, Seq<u8>), ExitModel> {
    if previous_last matches Some(previous) && !crate::domain::text::bytes_less(
        previous,
        rows[0].0,
    ) {
        Err(
            ExitModel::Contradiction(
                "Directory tables within one sorted run overlap or are unordered"@,
            ),
        )
    } else {
        match merged.with_entries(rows) {
            Some(after) => Ok((after, rows.last().0)),
            None => Err(resident_bound_exit()),
        }
    }
}

proof fn lemma_entries_stop(
    merged: MergedModel,
    rows: Seq<(Seq<u8>, DirectoryEntry)>,
    count: int,
)
    requires
        0 <= count <= rows.len(),
        merged.with_entries(rows.take(count)) is None,
    ensures
        merged.with_entries(rows) is None,
    decreases rows.len() - count,
{
    if count < rows.len() {
        assert(rows.take(count + 1).drop_last() =~= rows.take(count));
        lemma_entries_stop(merged, rows, count + 1);
    } else {
        assert(rows.take(count) =~= rows);
    }
}

proof fn lemma_cells_stop(
    merged: MergedModel,
    rows: Seq<(StreamUid, Option<RecordModel>)>,
    count: int,
)
    requires
        0 <= count <= rows.len(),
        merged.with_cells(rows.take(count)) is None,
    ensures
        merged.with_cells(rows) is None,
    decreases rows.len() - count,
{
    if count < rows.len() {
        assert(rows.take(count + 1).drop_last() =~= rows.take(count));
        lemma_cells_stop(merged, rows, count + 1);
    } else {
        assert(rows.take(count) =~= rows);
    }
}

pub proof fn lemma_with_entry_keeps(merged: MergedModel, row: (Seq<u8>, DirectoryEntry))
    requires
        merged.wf(),
        crate::domain::protocol::path_fits(row.0),
        merged.with_entry(row) is Some,
    ensures
        merged.with_entry(row)->0.wf(),
{
    let after = merged.with_entry(row)->0;
    let count = merged.rows.directory.dom().len() as int;
    assert forall|path: Seq<u8>| #[trigger]
        after.rows.directory.dom().contains(path) implies crate::domain::protocol::path_fits(path) by {
        if path != row.0 {
            assert(merged.rows.directory.dom().contains(path));
        }
    }
    if merged.rows.directory.dom().contains(row.0) {
        assert(after.rows.directory.dom() =~= merged.rows.directory.dom());
    } else {
        assert(after.rows.directory.dom() =~= merged.rows.directory.dom().insert(row.0));
        assert((count + 1) * DIRECTORY_ROW_LOGICAL_BYTES_MAX == count
            * DIRECTORY_ROW_LOGICAL_BYTES_MAX + DIRECTORY_ROW_LOGICAL_BYTES_MAX)
            by (nonlinear_arith);
    }
}

pub proof fn lemma_with_cell_keeps(merged: MergedModel, row: (StreamUid, Option<RecordModel>))
    requires
        merged.wf(),
        row.1 matches Some(record) ==> record.wf(),
        merged.with_cell(row) is Some,
    ensures
        merged.with_cell(row)->0.wf(),
        merged.rows.ledger.dom().contains(row.0.value) ==> merged.resident_bytes
            >= LEDGER_VALUE_ROW_LOGICAL_BYTES_MAX,
{
    let after = merged.with_cell(row)->0;
    let uid = row.0.value;
    let count = merged.rows.ledger.dom().len() as int;
    let entries = merged.rows.directory.dom().len() as int;
    assert forall|other: u64| #[trigger] after.rows.ledger.dom().contains(other) implies
        after.rows.ledger[other].wf() by {
        if other != uid {
            assert(merged.rows.ledger.dom().contains(other));
        }
    }
    assert(entries * DIRECTORY_ROW_LOGICAL_BYTES_MAX >= 0) by (nonlinear_arith)
        requires
            entries >= 0,
    ;
    if merged.rows.ledger.dom().contains(uid) {
        assert(merged.rows.ledger.dom().remove(uid).len() == count - 1);
        assert(count >= 1);
        assert(count * LEDGER_VALUE_ROW_LOGICAL_BYTES_MAX == (count - 1)
            * LEDGER_VALUE_ROW_LOGICAL_BYTES_MAX + LEDGER_VALUE_ROW_LOGICAL_BYTES_MAX)
            by (nonlinear_arith);
        assert((count - 1) * LEDGER_VALUE_ROW_LOGICAL_BYTES_MAX >= 0) by (nonlinear_arith)
            requires
                count >= 1,
        ;
        if row.1 is Some {
            assert(after.rows.ledger.dom() =~= merged.rows.ledger.dom());
        } else {
            assert(after.rows.ledger.dom() =~= merged.rows.ledger.dom().remove(uid));
        }
    } else {
        if row.1 is Some {
            assert(after.rows.ledger.dom() =~= merged.rows.ledger.dom().insert(uid));
            assert((count + 1) * LEDGER_VALUE_ROW_LOGICAL_BYTES_MAX == count
                * LEDGER_VALUE_ROW_LOGICAL_BYTES_MAX + LEDGER_VALUE_ROW_LOGICAL_BYTES_MAX)
                by (nonlinear_arith);
        } else {
            assert(after.rows.ledger.dom() =~= merged.rows.ledger.dom());
        }
    }
}

impl MergedRows {
    pub open spec fn wf(self) -> bool {
        self@.wf()
    }

    pub fn new() -> (merged: Self)
        ensures
            merged@ == MergedModel::empty(),
            merged.wf(),
    {
        let merged = MergedRows {
            directory: DirectoryRows::new(),
            ledger: LedgerRows::new(),
            resident_bytes: 0,
        };
        proof {
            assert(merged@.rows.directory =~= ForestModel::empty().directory);
            assert(merged@.rows.ledger =~= ForestModel::empty().ledger);
        }
        merged
    }
}

/// `after` holds the rows before the first that no budget is left for, and no other.
pub open spec fn entries_until(
    before: MergedModel,
    rows: Seq<(Seq<u8>, DirectoryEntry)>,
    after: MergedModel,
) -> bool {
    exists|count: int|
        0 <= count < rows.len() && #[trigger] before.with_entries(rows.take(count)) == Some(after)
            && after.with_entry(rows[count]) is None
}

/// Merges one Directory table and gives its last path. A table that overlaps changes
/// nothing; one that exceeds the budget is merged as far as the budget goes.
pub fn merge_directory_table(
    merged: &mut MergedRows,
    previous_last: Option<&DirectoryKey>,
    rows: &Vec<(DirectoryKey, DirectoryEntry)>,
) -> (last: Result<DirectoryKey, BootstrapExit>)
    requires
        old(merged).wf(),
        (RowsModel::Directory(crate::domain::sst_directory::directory_rows(rows@))).wf(),
    ensures
        ({
            let said = crate::domain::sst_directory::directory_rows(rows@);
            let previous = match previous_last {
                Some(previous) => Some(previous@),
                None => None,
            };
            match last {
                Ok(last) => {
                    &&& final(merged).wf()
                    &&& spec_merge_directory_table(old(merged)@, previous, said) == Ok::<
                        _,
                        ExitModel,
                    >((final(merged)@, last@))
                },
                Err(exit) => {
                    &&& final(merged).wf()
                    &&& spec_merge_directory_table(old(merged)@, previous, said) == Err::<
                        (MergedModel, Seq<u8>),
                        _,
                    >(exit@)
                    &&& if previous matches Some(previous) && !crate::domain::text::bytes_less(
                        previous,
                        said[0].0,
                    ) {
                        final(merged)@ == old(merged)@
                    } else {
                        entries_until(old(merged)@, said, final(merged)@)
                    }
                },
            }
        }),
{
    let ghost before = merged@;
    let ghost said = crate::domain::sst_directory::directory_rows(rows@);
    assert(said[0].0 == rows@[0].0@);
    if let Some(previous) = previous_last {
        if !previous.is_before(&rows[0].0) {
            return Err(
                contradiction("Directory tables within one sorted run overlap or are unordered"),
            );
        }
    }
    let mut at: usize = 0;
    assert(said.take(0) =~= Seq::empty());
    while at < rows.len()
        invariant
            at <= rows.len(),
            before == old(merged)@,
            said == crate::domain::sst_directory::directory_rows(rows@),
            crate::domain::sst_directory::directory_rows_wf(said),
            said.len() > 0,
            previous_last matches Some(previous) ==> crate::domain::text::bytes_less(
                previous@,
                said[0].0,
            ),
            merged.wf(),
            before.with_entries(said.take(at as int)) == Some(merged@),
        decreases rows.len() - at,
    {
        let ghost row = said[at as int];
        let ghost held = merged@;
        proof {
            let longer = said.take(at + 1);
            assert(longer.drop_last() =~= said.take(at as int));
            assert(longer.last() == row);
            assert(row == (rows@[at as int].0@, rows@[at as int].1));
        }
        let path = rows[at].0.as_bytes();
        if merged.directory.get(path).is_none() {
            match add_resident_bytes(merged.resident_bytes, DIRECTORY_ROW_LOGICAL_BYTES_MAX) {
                Ok(total) => {
                    merged.resident_bytes = total;
                },
                Err(exit) => {
                    proof {
                        assert(held.with_entry(row) is None);
                        lemma_entries_stop(before, said, at + 1);
                        assert(entries_until(before, said, held));
                    }
                    return Err(exit);
                },
            }
        }
        merged.directory.insert(copy_bytes(path), rows[at].1);
        proof {
            assert(held.with_entry(row) == Some(merged@));
            lemma_with_entry_keeps(held, row);
        }
        at += 1;
    }
    assert(said.take(at as int) =~= said);
    assert(said.last().0 == rows@[rows@.len() - 1].0@);
    Ok(rows[rows.len() - 1].0.clone())
}

/// What merging one Ledger table gives: the rows after it and its last stream.
/// Tables within one run ascend without overlap.
pub open spec fn spec_merge_ledger_table(
    merged: MergedModel,
    previous_last: Option<StreamUid>,
    rows: Seq<(StreamUid, Option<RecordModel>)>,
) -> Result<(MergedModel, StreamUid), ExitModel> {
    if previous_last matches Some(previous) && rows[0].0.value <= previous.value {
        Err(
            ExitModel::Contradiction(
                "Ledger tables within one sorted run overlap or are unordered"@,
            ),
        )
    } else {
        match merged.with_cells(rows) {
            Some(after) => Ok((after, rows.last().0)),
            None => Err(resident_bound_exit()),
        }
    }
}

/// `after` has the cells before the first that no budget is left for, and no other.
pub open spec fn cells_until(
    before: MergedModel,
    rows: Seq<(StreamUid, Option<RecordModel>)>,
    after: MergedModel,
) -> bool {
    exists|count: int|
        0 <= count < rows.len() && #[trigger] before.with_cells(rows.take(count)) == Some(after)
            && after.with_cell(rows[count]) is None
}

/// Merges one Ledger table and gives its last stream. A table that overlaps changes
/// nothing; one that exceeds the budget is merged as far as the budget goes.
pub fn merge_ledger_table(
    merged: &mut MergedRows,
    previous_last: Option<StreamUid>,
    rows: &Vec<(StreamUid, LedgerCell)>,
) -> (last: Result<StreamUid, BootstrapExit>)
    requires
        old(merged).wf(),
        (RowsModel::Ledger(crate::domain::sst_ledger::ledger_rows(rows@))).wf(),
    ensures
        ({
            let said = crate::domain::sst_ledger::ledger_rows(rows@);
            match last {
                Ok(last) => {
                    &&& final(merged).wf()
                    &&& spec_merge_ledger_table(old(merged)@, previous_last, said) == Ok::<
                        _,
                        ExitModel,
                    >((final(merged)@, last))
                },
                Err(exit) => {
                    &&& final(merged).wf()
                    &&& spec_merge_ledger_table(old(merged)@, previous_last, said) == Err::<
                        (MergedModel, StreamUid),
                        _,
                    >(exit@)
                    &&& if previous_last matches Some(previous) && said[0].0.value
                        <= previous.value {
                        final(merged)@ == old(merged)@
                    } else {
                        cells_until(old(merged)@, said, final(merged)@)
                    }
                },
            }
        }),
{
    let ghost before = merged@;
    let ghost said = crate::domain::sst_ledger::ledger_rows(rows@);
    assert(said[0].0 == rows@[0].0);
    if let Some(previous) = previous_last {
        if rows[0].0.value <= previous.value {
            return Err(
                contradiction("Ledger tables within one sorted run overlap or are unordered"),
            );
        }
    }
    let mut at: usize = 0;
    assert(said.take(0) =~= Seq::empty());
    while at < rows.len()
        invariant
            at <= rows.len(),
            before == old(merged)@,
            said == crate::domain::sst_ledger::ledger_rows(rows@),
            crate::domain::sst_ledger::ledger_rows_wf(said),
            said.len() > 0,
            previous_last matches Some(previous) ==> said[0].0.value > previous.value,
            merged.wf(),
            before.with_cells(said.take(at as int)) == Some(merged@),
        decreases rows.len() - at,
    {
        let ghost row = said[at as int];
        let ghost held = merged@;
        proof {
            let longer = said.take(at + 1);
            assert(longer.drop_last() =~= said.take(at as int));
            assert(longer.last() == row);
            assert(row == (rows@[at as int].0, rows@[at as int].1@));
        }
        let uid: u64 = rows[at].0.value;
        let resident = merged.ledger.get(uid).is_some();
        match &rows[at].1 {
            LedgerCell::Value(record) => {
                if !resident {
                    match add_resident_bytes(
                        merged.resident_bytes,
                        LEDGER_VALUE_ROW_LOGICAL_BYTES_MAX,
                    ) {
                        Ok(total) => {
                            merged.resident_bytes = total;
                        },
                        Err(exit) => {
                            proof {
                                assert(held.with_cell(row) is None);
                                lemma_cells_stop(before, said, at + 1);
                                assert(cells_until(before, said, held));
                            }
                            return Err(exit);
                        },
                    }
                }
                merged.ledger.insert(uid, record.clone());
            },
            LedgerCell::Delete => {
                proof {
                    lemma_with_cell_keeps(held, row);
                }
                merged.ledger.remove(uid);
                if resident {
                    merged.resident_bytes = merged.resident_bytes
                        - LEDGER_VALUE_ROW_LOGICAL_BYTES_MAX;
                }
            },
        }
        proof {
            assert(held.with_cell(row) == Some(merged@));
            lemma_with_cell_keeps(held, row);
        }
        at += 1;
    }
    assert(said.take(at as int) =~= said);
    assert(said.last().0 == rows@[rows@.len() - 1].0);
    Ok(rows[rows.len() - 1].0)
}

/// The loading of the admission base, one selected table at a time.
#[derive(Debug, PartialEq, Eq)]
pub struct BaseLoad {
    pub plan: BootstrapPlan,
    pub merged: MergedRows,
    /// The next run: the Directory's runs come before the Ledger's.
    pub run: usize,
    /// The next table of that run.
    pub table: usize,
    pub last_path: Option<DirectoryKey>,
    pub last_uid: Option<StreamUid>,
}

/// What a loading says.
pub struct LoadModel {
    pub plan: PlanModel,
    pub merged: MergedModel,
    pub run: nat,
    pub table: nat,
    pub last_path: Option<Seq<u8>>,
    pub last_uid: Option<StreamUid>,
}

impl View for BaseLoad {
    type V = LoadModel;

    open spec fn view(&self) -> LoadModel {
        LoadModel {
            plan: self.plan@,
            merged: self.merged@,
            run: self.run as nat,
            table: self.table as nat,
            last_path: match self.last_path {
                Some(path) => Some(path@),
                None => None,
            },
            last_uid: self.last_uid,
        }
    }
}

pub open spec fn disagreement(error: ForestContradiction) -> ExitModel {
    ExitModel::Contradiction(
        "merged Directory and Ledger rows disagree: "@ + error.spec_message(),
    )
}

impl PlanModel {
    /// Every planned run has a table, and the runs are no more than a tree's.
    pub open spec fn wf(self) -> bool {
        &&& forall|r: int| 0 <= r < self.directory.len() ==> (#[trigger] self.directory[r]).len() > 0
        &&& forall|r: int| 0 <= r < self.ledger.len() ==> (#[trigger] self.ledger[r]).len() > 0
        &&& self.directory.len() <= TREE_RUNS_MAX
        &&& self.ledger.len() <= TREE_RUNS_MAX
    }

    /// All runs in loading order.
    pub open spec fn runs(self) -> Seq<Seq<TableRef>> {
        self.directory + self.ledger
    }
}

/// The plan of a valid Seal has a table in every run.
pub proof fn lemma_plan_is_valid(seal: SealModel)
    requires
        seal.wf(),
    ensures
        plan_of(seal).wf(),
{
    let plan = plan_of(seal);
    assert forall|r: int| 0 <= r < plan.directory.len() implies (
    #[trigger] plan.directory[r]).len() > 0 by {
        assert(plan.directory[r] == seal.directory[seal.directory.len() - 1 - r]);
        assert(crate::domain::seal::run_wf(seal.directory[seal.directory.len() - 1 - r]));
    }
    assert forall|r: int| 0 <= r < plan.ledger.len() implies (#[trigger] plan.ledger[r]).len()
        > 0 by {
        assert(plan.ledger[r] == seal.ledger[seal.ledger.len() - 1 - r]);
        assert(crate::domain::seal::run_wf(seal.ledger[seal.ledger.len() - 1 - r]));
    }
}

impl LoadModel {
    pub open spec fn start(plan: PlanModel) -> Self {
        LoadModel {
            plan,
            merged: MergedModel::empty(),
            run: 0,
            table: 0,
            last_path: None,
            last_uid: None,
        }
    }

    pub open spec fn wf(self) -> bool {
        &&& self.plan.wf()
        &&& self.merged.wf()
        &&& self.run <= self.plan.runs().len()
        &&& self.run < self.plan.runs().len() ==> self.table < self.plan.runs()[self.run as int].len()
    }

    /// The table to read next; none when every table is merged.
    pub open spec fn next(self) -> Option<TableRef> {
        if self.run < self.plan.runs().len() {
            Some(self.plan.runs()[self.run as int][self.table as int])
        } else {
            None
        }
    }

    /// The loading after the next table's rows; a run's end forgets its last key.
    pub open spec fn advanced(
        self,
        merged: MergedModel,
        last_path: Option<Seq<u8>>,
        last_uid: Option<StreamUid>,
    ) -> Self {
        if self.table + 1 < self.plan.runs()[self.run as int].len() {
            LoadModel { plan: self.plan, merged, run: self.run, table: self.table + 1, last_path, last_uid }
        } else {
            LoadModel {
                plan: self.plan,
                merged,
                run: self.run + 1,
                table: 0,
                last_path: None,
                last_uid: None,
            }
        }
    }

    /// The loading after the next table's rows.
    pub open spec fn merge(self, rows: RowsModel) -> Result<Self, ExitModel> {
        if self.run < self.plan.directory.len() {
            match rows {
                RowsModel::Ledger(_) => Err(
                    ExitModel::Contradiction("Directory manifest selected a Ledger table"@),
                ),
                RowsModel::Directory(rows) => match spec_merge_directory_table(
                    self.merged,
                    self.last_path,
                    rows,
                ) {
                    Ok((merged, last)) => Ok(self.advanced(merged, Some(last), None)),
                    Err(exit) => Err(exit),
                },
            }
        } else {
            match rows {
                RowsModel::Directory(_) => Err(
                    ExitModel::Contradiction("Ledger manifest selected a Directory table"@),
                ),
                RowsModel::Ledger(rows) => match spec_merge_ledger_table(
                    self.merged,
                    self.last_uid,
                    rows,
                ) {
                    Ok((merged, last)) => Ok(self.advanced(merged, None, Some(last))),
                    Err(exit) => Err(exit),
                },
            }
        }
    }
}

impl BaseLoad {
    pub open spec fn wf(self) -> bool {
        self@.wf()
    }

    pub fn new(plan: BootstrapPlan) -> (load: Self)
        requires
            plan@.wf(),
        ensures
            load@ == LoadModel::start(plan@),
            load.wf(),
    {
        let load = BaseLoad {
            plan,
            merged: MergedRows::new(),
            run: 0,
            table: 0,
            last_path: None,
            last_uid: None,
        };
        proof {
            let runs = load@.plan.runs();
            if runs.len() > 0 {
                if load@.plan.directory.len() > 0 {
                    assert(runs[0] == load@.plan.directory[0]);
                } else {
                    assert(runs[0] == load@.plan.ledger[0]);
                }
            }
        }
        load
    }

    /// The table to read next; none when every table is merged.
    pub fn next_table(&self) -> (table: Option<TableRef>)
        requires
            self.wf(),
        ensures
            table == self@.next(),
    {
        let directory_runs: usize = self.plan.directory.len();
        if self.run < directory_runs {
            assert(self@.plan.runs()[self.run as int] == self@.plan.directory[self.run as int]);
            Some(self.plan.directory[self.run].tables[self.table])
        } else if self.run - directory_runs < self.plan.ledger.len() {
            assert(self@.plan.runs()[self.run as int] == self@.plan.ledger[self.run
                - directory_runs]);
            Some(self.plan.ledger[self.run - directory_runs].tables[self.table])
        } else {
            None
        }
    }

    /// Merges the rows of the next table; when that fails, the table stays the next.
    pub fn merge(&mut self, rows: &DecodedTable) -> (merged: Result<(), BootstrapExit>)
        requires
            old(self).wf(),
            old(self)@.next() is Some,
            rows@.wf(),
        ensures
            match merged {
                Ok(_) => final(self).wf() && old(self)@.merge(rows@) == Ok::<_, ExitModel>(
                    final(self)@,
                ),
                Err(exit) => {
                    &&& old(self)@.merge(rows@) == Err::<LoadModel, _>(exit@)
                    &&& final(self)@ == (LoadModel { merged: final(self)@.merged, ..old(self)@ })
                },
            },
    {
        let ghost before = self@;
        let directory_runs: usize = self.plan.directory.len();
        let tables: usize;
        if self.run < directory_runs {
            let rows = match rows {
                DecodedTable::Directory(rows) => rows,
                DecodedTable::Ledger(_) => {
                    return Err(contradiction("Directory manifest selected a Ledger table"));
                },
            };
            match merge_directory_table(&mut self.merged, self.last_path.as_ref(), rows) {
                Ok(last) => {
                    self.last_path = Some(last);
                    self.last_uid = None;
                },
                Err(exit) => {
                    return Err(exit);
                },
            }
            assert(before.plan.runs()[before.run as int] == before.plan.directory[before.run as int]);
            tables = self.plan.directory[self.run].tables.len();
        } else {
            let rows = match rows {
                DecodedTable::Ledger(rows) => rows,
                DecodedTable::Directory(_) => {
                    return Err(contradiction("Ledger manifest selected a Directory table"));
                },
            };
            match merge_ledger_table(&mut self.merged, self.last_uid, rows) {
                Ok(last) => {
                    self.last_uid = Some(last);
                    self.last_path = None;
                },
                Err(exit) => {
                    return Err(exit);
                },
            }
            assert(before.plan.runs()[before.run as int] == before.plan.ledger[before.run
                - directory_runs]);
            tables = self.plan.ledger[self.run - directory_runs].tables.len();
        }
        if self.table + 1 < tables {
            self.table = self.table + 1;
        } else {
            self.run = self.run + 1;
            self.table = 0;
            self.last_path = None;
            self.last_uid = None;
            proof {
                let runs = self@.plan.runs();
                if self.run < runs.len() {
                    if self.run < directory_runs {
                        assert(runs[self.run as int] == self@.plan.directory[self.run as int]);
                    } else {
                        assert(runs[self.run as int] == self@.plan.ledger[self.run
                            - directory_runs]);
                    }
                }
            }
        }
        Ok(())
    }

    /// The complete forest of the merged rows.
    pub fn finish(self) -> (forest: Result<Forest, BootstrapExit>)
        requires
            self.wf(),
        ensures
            match forest {
                Ok(forest) => {
                    &&& forest.wf()
                    &&& forest@ == self@.merged.rows
                    &&& crate::engine::forest::merged_error(self@.merged.rows) is None
                },
                Err(exit) => crate::engine::forest::merged_error(
                    self@.merged.rows,
                ) matches Some(error) && exit@ == disagreement(error),
            },
    {
        match Forest::try_from_merged(self.merged.directory, self.merged.ledger) {
            Ok(forest) => Ok(forest),
            Err(error) => Err(map_forest_error(error)),
        }
    }
}

fn map_forest_error(error: ForestContradiction) -> (exit: BootstrapExit)
    ensures
        exit@ == disagreement(error),
{
    let mut detail = String::from_str("merged Directory and Ledger rows disagree: ");
    detail.append(error.to_string().as_str());
    BootstrapExit::Contradiction { detail }
}

} // verus!
