//! Permanent Seal and manifest vocabulary.

use vstd::prelude::*;

use crate::domain::bounds::{RUN_TABLES_MAX, SST_OBJECT_BYTES_MAX, TREE_RUNS_MAX};
use crate::domain::coordinate::{BatchId, OwnerToken, SealGeneration};
use crate::domain::partition::PartitionId;
use crate::domain::table::{StoreKind, TableObjectId};

verus! {

/// One published state of a partition: its replay point and its two trees.
#[derive(Debug, PartialEq, Eq)]
pub struct Seal {
    pub partition: PartitionId,
    pub generation: SealGeneration,
    pub replay: WalReplayPoint,
    pub directory: TreeVersion,
    pub ledger: TreeVersion,
}

/// What a Seal says: its trees as sequences of runs of tables.
pub struct SealModel {
    pub partition: PartitionId,
    pub generation: SealGeneration,
    pub replay: WalReplayPoint,
    pub directory: Seq<Seq<TableRef>>,
    pub ledger: Seq<Seq<TableRef>>,
}

impl View for Seal {
    type V = SealModel;

    open spec fn view(&self) -> SealModel {
        SealModel {
            partition: self.partition,
            generation: self.generation,
            replay: self.replay,
            directory: self.directory@,
            ledger: self.ledger@,
        }
    }
}

impl Clone for Seal {
    fn clone(&self) -> (copy: Self)
        ensures
            copy@ == self@,
    {
        Seal {
            partition: self.partition,
            generation: self.generation,
            replay: self.replay,
            directory: self.directory.clone(),
            ledger: self.ledger.clone(),
        }
    }
}

/// The tables of a tree, run by run.
pub open spec fn tree_tables(tree: Seq<Seq<TableRef>>) -> Seq<TableRef>
    decreases tree.len(),
{
    if tree.len() == 0 {
        Seq::empty()
    } else {
        tree_tables(tree.drop_last()) + tree.last()
    }
}

/// What is wrong with one table of a tree.
pub open spec fn table_error(
    table: TableRef,
    store: StoreKind,
    generation: SealGeneration,
) -> Option<SealError> {
    if table.object.store != store {
        Some(SealError::StoreMismatch)
    } else if table.object.fresh.birth_generation.value > generation.value {
        Some(SealError::FutureTable)
    } else {
        None
    }
}

/// What is wrong with the first wrong table, if any table is wrong.
pub open spec fn tables_error(
    tables: Seq<TableRef>,
    store: StoreKind,
    generation: SealGeneration,
) -> Option<SealError>
    decreases tables.len(),
{
    if tables.len() == 0 {
        None
    } else {
        match tables_error(tables.drop_last(), store, generation) {
            Some(error) => Some(error),
            None => table_error(tables.last(), store, generation),
        }
    }
}

/// The tables of joined trees are the joined tables.
pub proof fn lemma_tree_tables_join(left: Seq<Seq<TableRef>>, right: Seq<Seq<TableRef>>)
    ensures
        tree_tables(left + right) == tree_tables(left) + tree_tables(right),
    decreases right.len(),
{
    if right.len() == 0 {
        assert(left + right =~= left);
        assert(tree_tables(left) + tree_tables(right) =~= tree_tables(left));
    } else {
        lemma_tree_tables_join(left, right.drop_last());
        assert((left + right).drop_last() =~= left + right.drop_last());
        assert(tree_tables(left + right) =~= tree_tables(left) + tree_tables(right));
    }
}

/// Joined tables are right where both parts are.
pub proof fn lemma_tables_error_join(
    left: Seq<TableRef>,
    right: Seq<TableRef>,
    store: StoreKind,
    generation: SealGeneration,
)
    requires
        tables_error(left, store, generation) is None,
        tables_error(right, store, generation) is None,
    ensures
        tables_error(left + right, store, generation) is None,
    decreases right.len(),
{
    if right.len() == 0 {
        assert(left + right =~= left);
    } else {
        lemma_tables_error_join(left, right.drop_last(), store, generation);
        assert((left + right).drop_last() =~= left + right.drop_last());
    }
}

/// Tables each of which is right are right together.
pub proof fn lemma_tables_error_each(
    tables: Seq<TableRef>,
    store: StoreKind,
    generation: SealGeneration,
)
    requires
        forall|i: int|
            0 <= i < tables.len() ==> table_error(#[trigger] tables[i], store, generation) is None,
    ensures
        tables_error(tables, store, generation) is None,
    decreases tables.len(),
{
    if tables.len() > 0 {
        assert forall|i: int| 0 <= i < tables.drop_last().len() implies table_error(
            #[trigger] tables.drop_last()[i],
            store,
            generation,
        ) is None by {
            assert(tables.drop_last()[i] == tables[i]);
        }
        lemma_tables_error_each(tables.drop_last(), store, generation);
    }
}

/// No table object occurs twice.
pub open spec fn objects_distinct(tables: Seq<TableRef>) -> bool {
    forall|i: int, j: int|
        0 <= i < j < tables.len() ==> (#[trigger] tables[i]).object != (
        #[trigger] tables[j]).object
}

impl SealModel {
    pub open spec fn identity(self) -> SealIdentity {
        SealIdentity { partition: self.partition, generation: self.generation }
    }

    /// All tables that the Seal selects, the Directory's before the Ledger's.
    pub open spec fn tables(self) -> Seq<TableRef> {
        tree_tables(self.directory) + tree_tables(self.ledger)
    }

    /// Why no Seal says this, if none does.
    pub open spec fn error(self) -> Option<SealError> {
        if self.generation == SealGeneration::spec_genesis() && (self.replay
            != WalReplayPoint::Genesis || self.directory.len() != 0 || self.ledger.len() != 0) {
            Some(SealError::NonCanonicalGenesis)
        } else if self.replay matches WalReplayPoint::Through { owner, .. }
            && owner.generation.value >= self.generation.value {
            Some(SealError::ReplayOwnerNotBeforeSeal)
        } else if tables_error(
            tree_tables(self.directory),
            StoreKind::Directory,
            self.generation,
        ) is Some {
            tables_error(tree_tables(self.directory), StoreKind::Directory, self.generation)
        } else if tables_error(tree_tables(self.ledger), StoreKind::Ledger, self.generation) is Some {
            tables_error(tree_tables(self.ledger), StoreKind::Ledger, self.generation)
        } else if !objects_distinct(self.tables()) {
            Some(SealError::DuplicateTableObject)
        } else {
            None
        }
    }

    /// The parts are valid and fit together.
    pub open spec fn wf(self) -> bool {
        &&& self.partition.wf()
        &&& self.generation.wf()
        &&& self.replay.wf()
        &&& tree_wf(self.directory)
        &&& tree_wf(self.ledger)
        &&& self.error() is None
    }

    /// The same state one generation later.
    pub open spec fn claimed(self) -> Self {
        SealModel { generation: SealGeneration { value: (self.generation.value + 1) as u64 }, ..self }
    }

    /// Claiming the next generation keeps a Seal valid: it moves the generation
    /// on by one and keeps the partition, the replay point and every table.
    pub proof fn law_claim_keeps_validity(self)
        requires
            self.wf(),
            self.generation.value < u64::MAX,
        ensures
            self.claimed().wf(),
            self.claimed().generation.value == self.generation.value + 1,
            self.claimed().replay == self.replay,
            self.claimed().tables() == self.tables(),
    {
        let next = self.claimed().generation;
        lemma_tables_error_later(
            tree_tables(self.directory),
            StoreKind::Directory,
            self.generation,
            next,
        );
        lemma_tables_error_later(tree_tables(self.ledger), StoreKind::Ledger, self.generation, next);
    }
}

/// Tables that are right at one generation are right at every later one.
pub proof fn lemma_tables_error_later(
    tables: Seq<TableRef>,
    store: StoreKind,
    generation: SealGeneration,
    later: SealGeneration,
)
    requires
        tables_error(tables, store, generation) is None,
        generation.value <= later.value,
    ensures
        tables_error(tables, store, later) is None,
    decreases tables.len(),
{
    if tables.len() > 0 {
        lemma_tables_error_later(tables.drop_last(), store, generation, later);
    }
}

/// Valid tables hold no wrong one.
pub proof fn lemma_tables_error_none(
    tables: Seq<TableRef>,
    store: StoreKind,
    generation: SealGeneration,
    i: int,
)
    requires
        tables_error(tables, store, generation) is None,
        0 <= i < tables.len(),
    ensures
        table_error(tables[i], store, generation) is None,
    decreases tables.len(),
{
    if i < tables.len() - 1 {
        lemma_tables_error_none(tables.drop_last(), store, generation, i);
        assert(tables.drop_last()[i] == tables[i]);
    }
}

proof fn lemma_tables_error_first(
    tables: Seq<TableRef>,
    store: StoreKind,
    generation: SealGeneration,
    first: int,
)
    requires
        0 <= first < tables.len(),
        tables_error(tables.take(first), store, generation) is None,
        table_error(tables[first], store, generation) is Some,
    ensures
        tables_error(tables, store, generation) == table_error(tables[first], store, generation),
    decreases tables.len(),
{
    if first == tables.len() - 1 {
        assert(tables.drop_last() =~= tables.take(first));
    } else {
        assert(tables.drop_last().take(first) =~= tables.take(first));
        assert(tables.drop_last()[first] == tables[first]);
        lemma_tables_error_first(tables.drop_last(), store, generation, first);
    }
}

impl Seal {
    pub open spec fn wf(self) -> bool {
        self@.wf()
    }

    /// Fails when the parts contradict each other: a first generation that is not
    /// the empty genesis, a replay owner that is not older than the Seal, a table
    /// of another store or of a later generation, a table object that occurs twice.
    pub fn new(
        partition: PartitionId,
        generation: SealGeneration,
        replay: WalReplayPoint,
        directory: TreeVersion,
        ledger: TreeVersion,
    ) -> (seal: Result<Self, SealError>)
        ensures
            ({
                let model = SealModel {
                    partition,
                    generation,
                    replay,
                    directory: directory@,
                    ledger: ledger@,
                };
                match seal {
                    Ok(seal) => seal@ == model && model.error() is None,
                    Err(error) => model.error() == Some(error),
                }
            }),
    {
        if generation == SealGeneration::genesis() && (replay != WalReplayPoint::Genesis
            || !directory.is_empty() || !ledger.is_empty()) {
            return Err(SealError::NonCanonicalGenesis);
        }
        if let WalReplayPoint::Through { batch: _, owner } = replay {
            if owner.generation.value >= generation.value {
                return Err(SealError::ReplayOwnerNotBeforeSeal);
            }
        }
        let mut tables: Vec<TableRef> = directory.tables();
        validate_tables(&tables, StoreKind::Directory, generation)?;
        let mut ledger_tables: Vec<TableRef> = ledger.tables();
        validate_tables(&ledger_tables, StoreKind::Ledger, generation)?;
        tables.append(&mut ledger_tables);
        if !is_objects_distinct(&tables) {
            return Err(SealError::DuplicateTableObject);
        }
        Ok(Seal { partition, generation, replay, directory, ledger })
    }

    pub fn identity(&self) -> (identity: SealIdentity)
        ensures
            identity == self@.identity(),
    {
        SealIdentity { partition: self.partition, generation: self.generation }
    }

    pub fn partition(&self) -> (partition: PartitionId)
        ensures
            partition == self.partition,
    {
        self.partition
    }

    pub fn generation(&self) -> (generation: SealGeneration)
        ensures
            generation == self.generation,
    {
        self.generation
    }

    pub fn replay(&self) -> (replay: WalReplayPoint)
        ensures
            replay == self.replay,
    {
        self.replay
    }

    pub fn directory(&self) -> (tree: &TreeVersion)
        ensures
            *tree == self.directory,
    {
        &self.directory
    }

    pub fn ledger(&self) -> (tree: &TreeVersion)
        ensures
            *tree == self.ledger,
    {
        &self.ledger
    }

    /// Every selected table, the Directory's before the Ledger's.
    pub fn tables(&self) -> (tables: Vec<TableRef>)
        ensures
            tables@ == self@.tables(),
    {
        let mut tables: Vec<TableRef> = self.directory.tables();
        let mut ledger_tables: Vec<TableRef> = self.ledger.tables();
        tables.append(&mut ledger_tables);
        tables
    }

    /// Builds the exact claim successor, preserving the complete logical and
    /// physical state of this Seal; the final generation has none.
    pub fn claim_successor(&self) -> (seal: Result<Self, SealError>)
        ensures
            match seal {
                Ok(seal) => self.generation.value < u64::MAX && seal@ == self@.claimed(),
                Err(error) => self.generation.value == u64::MAX && error
                    == SealError::GenerationExhausted,
            },
            self.wf() ==> (seal matches Ok(seal) ==> seal.wf()),
    {
        match self.generation.successor() {
            Ok(generation) => {
                let copy = self.clone();
                proof {
                    if self.wf() {
                        self@.law_claim_keeps_validity();
                    }
                }
                Ok(
                    Seal {
                        partition: copy.partition,
                        generation,
                        replay: copy.replay,
                        directory: copy.directory,
                        ledger: copy.ledger,
                    },
                )
            },
            Err(_exhausted) => Err(SealError::GenerationExhausted),
        }
    }
}

fn validate_tables(tables: &Vec<TableRef>, store: StoreKind, generation: SealGeneration) -> (checked:
    Result<(), SealError>)
    ensures
        match checked {
            Ok(_) => tables_error(tables@, store, generation) is None,
            Err(error) => tables_error(tables@, store, generation) == Some(error),
        },
{
    let mut at: usize = 0;
    while at < tables.len()
        invariant
            at <= tables.len(),
            tables_error(tables@.take(at as int), store, generation) is None,
        decreases tables.len() - at,
    {
        let table: TableRef = tables[at];
        if table.object.store != store {
            proof {
                lemma_tables_error_first(tables@, store, generation, at as int);
            }
            return Err(SealError::StoreMismatch);
        }
        if table.object.fresh.birth_generation.value > generation.value {
            proof {
                lemma_tables_error_first(tables@, store, generation, at as int);
            }
            return Err(SealError::FutureTable);
        }
        assert(tables@.take(at + 1).drop_last() =~= tables@.take(at as int));
        at += 1;
    }
    assert(tables@.take(at as int) =~= tables@);
    Ok(())
}

fn is_objects_distinct(tables: &Vec<TableRef>) -> (distinct: bool)
    ensures
        distinct == objects_distinct(tables@),
{
    let mut j: usize = 0;
    while j < tables.len()
        invariant
            j <= tables.len(),
            objects_distinct(tables@.take(j as int)),
        decreases tables.len() - j,
    {
        let object: TableObjectId = tables[j].object;
        let mut i: usize = 0;
        while i < j
            invariant
                i <= j < tables.len(),
                object == tables@[j as int].object,
                forall|k: int| 0 <= k < i ==> (#[trigger] tables@[k]).object != object,
            decreases j - i,
        {
            if tables[i].object == object {
                return false;
            }
            i += 1;
        }
        assert forall|a: int, b: int|
            0 <= a < b < j + 1 implies (#[trigger] tables@.take(j + 1)[a]).object != (
        #[trigger] tables@.take(j + 1)[b]).object by {
            if b < j {
                assert(tables@.take(j as int)[a] == tables@[a]);
                assert(tables@.take(j as int)[b] == tables@[b]);
            } else {
                assert(tables@[a].object != object);
            }
        }
        j += 1;
    }
    assert(tables@.take(j as int) =~= tables@);
    true
}

/// Where one Seal stands.
#[derive(Debug, Clone, Copy, PartialEq, Eq, PartialOrd, Ord, Hash)]
pub struct SealIdentity {
    pub partition: PartitionId,
    pub generation: SealGeneration,
}

impl SealIdentity {
    pub open spec fn wf(self) -> bool {
        self.partition.wf() && self.generation.wf()
    }

    pub fn new(partition: PartitionId, generation: SealGeneration) -> (identity: Self)
        ensures
            identity == (SealIdentity { partition, generation }),
    {
        SealIdentity { partition, generation }
    }

    pub fn partition(self) -> (partition: PartitionId)
        ensures
            partition == self.partition,
    {
        self.partition
    }

    pub fn generation(self) -> (generation: SealGeneration)
        ensures
            generation == self.generation,
    {
        self.generation
    }

    /// Decides whether two identities are the same.
    pub fn is_same(&self, other: &Self) -> (same: bool)
        ensures
            same == (*self == *other),
    {
        self.generation == other.generation && self.partition.is_same(&other.partition)
    }
}

/// The last log coordinate whose facts the trees hold.
#[derive(Debug, Clone, Copy, PartialEq, Eq, Structural)]
pub enum WalReplayPoint {
    Genesis,
    Through { batch: BatchId, owner: OwnerToken },
}

impl WalReplayPoint {
    pub open spec fn wf(self) -> bool {
        match self {
            WalReplayPoint::Genesis => true,
            WalReplayPoint::Through { batch, owner } => batch.wf() && owner.wf(),
        }
    }

    /// The covered coordinate; genesis covers none, which is coordinate zero.
    pub open spec fn covered(self) -> u64 {
        match self {
            WalReplayPoint::Genesis => 0,
            WalReplayPoint::Through { batch, .. } => batch.value,
        }
    }

    pub open spec fn spec_batch(self) -> Option<BatchId> {
        match self {
            WalReplayPoint::Genesis => None,
            WalReplayPoint::Through { batch, .. } => Some(batch),
        }
    }

    /// The covered batch; genesis has none.
    pub fn batch(self) -> (batch: Option<BatchId>)
        ensures
            batch == self.spec_batch(),
    {
        match self {
            WalReplayPoint::Genesis => None,
            WalReplayPoint::Through { batch, owner: _ } => Some(batch),
        }
    }
}

/// One version of one tree: sorted runs, newest first.
#[derive(Debug, PartialEq, Eq)]
pub struct TreeVersion {
    pub runs: Vec<SortedRun>,
}

impl View for TreeVersion {
    type V = Seq<Seq<TableRef>>;

    open spec fn view(&self) -> Seq<Seq<TableRef>> {
        self.runs@.map(|_i: int, run: SortedRun| run@)
    }
}

impl Clone for TreeVersion {
    fn clone(&self) -> (copy: Self)
        ensures
            copy@ == self@,
    {
        let mut runs: Vec<SortedRun> = Vec::new();
        let mut at: usize = 0;
        while at < self.runs.len()
            invariant
                at <= self.runs.len(),
                runs@.len() == at,
                forall|i: int| 0 <= i < at ==> (#[trigger] runs@[i])@ == self.runs@[i]@,
            decreases self.runs.len() - at,
        {
            runs.push(self.runs[at].clone());
            at += 1;
        }
        let copy = TreeVersion { runs };
        assert(copy@ =~= self@);
        copy
    }
}

/// Runs, none too many, each nonempty, none too long, of valid tables.
pub open spec fn tree_wf(tree: Seq<Seq<TableRef>>) -> bool {
    &&& tree.len() <= TREE_RUNS_MAX
    &&& forall|r: int| 0 <= r < tree.len() ==> run_wf(#[trigger] tree[r])
}

pub open spec fn run_wf(run: Seq<TableRef>) -> bool {
    &&& 0 < run.len() <= RUN_TABLES_MAX
    &&& forall|t: int| 0 <= t < run.len() ==> (#[trigger] run[t]).wf()
}

impl TreeVersion {
    pub open spec fn wf(self) -> bool {
        tree_wf(self@)
    }

    pub fn empty() -> (tree: Self)
        ensures
            tree@ == Seq::<Seq<TableRef>>::empty(),
            tree.wf(),
    {
        let tree = TreeVersion { runs: Vec::new() };
        assert(tree@ =~= Seq::<Seq<TableRef>>::empty());
        tree
    }

    pub fn runs(&self) -> (runs: &[SortedRun])
        ensures
            runs@ == self.runs@,
    {
        self.runs.as_slice()
    }

    pub fn is_empty(&self) -> (empty: bool)
        ensures
            empty == (self@.len() == 0),
    {
        self.runs.len() == 0
    }

    /// The tables of every run, in the order of the runs.
    pub fn tables(&self) -> (tables: Vec<TableRef>)
        ensures
            tables@ == tree_tables(self@),
    {
        let mut tables: Vec<TableRef> = Vec::new();
        let mut r: usize = 0;
        assert(tables@ =~= tree_tables(self@.take(0)));
        while r < self.runs.len()
            invariant
                r <= self.runs.len(),
                tables@ == tree_tables(self@.take(r as int)),
            decreases self.runs.len() - r,
        {
            let ghost before = tables@;
            let run: &Vec<TableRef> = &self.runs[r].tables;
            let mut t: usize = 0;
            assert(tables@ =~= before + run@.take(0));
            while t < run.len()
                invariant
                    t <= run.len(),
                    tables@ == before + run@.take(t as int),
                decreases run.len() - t,
            {
                tables.push(run[t]);
                assert(tables@ =~= before + run@.take(t + 1));
                t += 1;
            }
            proof {
                assert(run@.take(t as int) =~= run@);
                let longer = self@.take(r + 1);
                assert(longer.drop_last() =~= self@.take(r as int));
                assert(longer.last() == run@);
            }
            r += 1;
        }
        assert(self@.take(r as int) =~= self@);
        tables
    }
}

impl TryFrom<Vec<SortedRun>> for TreeVersion {
    type Error = SealError;

    fn try_from(runs: Vec<SortedRun>) -> (tree: Result<Self, SealError>) {
        if runs.len() > TREE_RUNS_MAX {
            return Err(SealError::RunsOverMax);
        }
        Ok(TreeVersion { runs })
    }
}

impl vstd::std_specs::convert::TryFromSpecImpl<Vec<SortedRun>> for TreeVersion {
    open spec fn obeys_try_from_spec() -> bool {
        true
    }

    open spec fn try_from_spec(runs: Vec<SortedRun>) -> Result<Self, SealError> {
        if runs@.len() > TREE_RUNS_MAX {
            Err(SealError::RunsOverMax)
        } else {
            Ok(TreeVersion { runs })
        }
    }
}

/// Tables in key order.
#[derive(Debug, PartialEq, Eq)]
pub struct SortedRun {
    pub tables: Vec<TableRef>,
}

impl View for SortedRun {
    type V = Seq<TableRef>;

    open spec fn view(&self) -> Seq<TableRef> {
        self.tables@
    }
}

impl Clone for SortedRun {
    fn clone(&self) -> (copy: Self)
        ensures
            copy@ == self@,
    {
        let mut tables: Vec<TableRef> = Vec::new();
        let mut at: usize = 0;
        while at < self.tables.len()
            invariant
                at <= self.tables.len(),
                tables@ == self.tables@.take(at as int),
            decreases self.tables.len() - at,
        {
            tables.push(self.tables[at]);
            assert(tables@ =~= self.tables@.take(at + 1));
            at += 1;
        }
        assert(tables@ =~= self.tables@);
        SortedRun { tables }
    }
}

impl SortedRun {
    pub open spec fn wf(self) -> bool {
        run_wf(self@)
    }

    pub fn tables(&self) -> (tables: &[TableRef])
        ensures
            tables@ == self@,
    {
        self.tables.as_slice()
    }
}

impl TryFrom<Vec<TableRef>> for SortedRun {
    type Error = SealError;

    fn try_from(tables: Vec<TableRef>) -> (run: Result<Self, SealError>) {
        if tables.len() == 0 {
            return Err(SealError::EmptyRun);
        }
        if tables.len() > RUN_TABLES_MAX {
            return Err(SealError::TablesOverMax);
        }
        Ok(SortedRun { tables })
    }
}

impl vstd::std_specs::convert::TryFromSpecImpl<Vec<TableRef>> for SortedRun {
    open spec fn obeys_try_from_spec() -> bool {
        true
    }

    open spec fn try_from_spec(tables: Vec<TableRef>) -> Result<Self, SealError> {
        if tables@.len() == 0 {
            Err(SealError::EmptyRun)
        } else if tables@.len() > RUN_TABLES_MAX {
            Err(SealError::TablesOverMax)
        } else {
            Ok(SortedRun { tables })
        }
    }
}

/// A selected table object and its complete length.
#[derive(Debug, Clone, Copy, PartialEq, Eq, Structural)]
pub struct TableRef {
    pub object: TableObjectId,
    pub object_bytes: u64,
}

impl TableRef {
    pub open spec fn wf(self) -> bool {
        &&& self.object.wf()
        &&& 0 < self.object_bytes <= SST_OBJECT_BYTES_MAX
    }

    pub open spec fn spec_new(object: TableObjectId, object_bytes: u64) -> Result<Self, SealError> {
        if object_bytes > SST_OBJECT_BYTES_MAX {
            Err(SealError::ObjectBytesOverMax)
        } else {
            Ok(TableRef { object, object_bytes })
        }
    }

    /// Fails when the complete object length exceeds the SST bound.
    pub fn new(object: TableObjectId, object_bytes: u64) -> (table: Result<Self, SealError>)
        requires
            object_bytes != 0,
        ensures
            table == Self::spec_new(object, object_bytes),
            object.wf() ==> (table matches Ok(table) ==> table.wf()),
    {
        if object_bytes > SST_OBJECT_BYTES_MAX {
            return Err(SealError::ObjectBytesOverMax);
        }
        Ok(TableRef { object, object_bytes })
    }

    pub fn object(self) -> (object: TableObjectId)
        ensures
            object == self.object,
    {
        self.object
    }

    pub fn object_bytes(self) -> (bytes: u64)
        ensures
            bytes == self.object_bytes,
    {
        self.object_bytes
    }
}

/// Why parts form no Seal.
#[derive(Debug, Clone, Copy, PartialEq, Eq, Structural)]
pub enum SealError {
    GenerationExhausted,
    NonCanonicalGenesis,
    ReplayOwnerNotBeforeSeal,
    RunsOverMax,
    EmptyRun,
    TablesOverMax,
    ObjectBytesOverMax,
    StoreMismatch,
    FutureTable,
    DuplicateTableObject,
}

impl SealError {
    pub open spec fn spec_message(self) -> Seq<char> {
        match self {
            SealError::GenerationExhausted => "Seal generation is exhausted"@,
            SealError::NonCanonicalGenesis =>
                "generation-one Seal is not the canonical empty genesis"@,
            SealError::ReplayOwnerNotBeforeSeal =>
                "Seal replay owner is not older than its generation"@,
            SealError::RunsOverMax => "tree has more than 16 runs"@,
            SealError::EmptyRun => "sorted run is empty"@,
            SealError::TablesOverMax => "sorted run has more than 4096 tables"@,
            SealError::ObjectBytesOverMax => "table object exceeds 134217728 bytes"@,
            SealError::StoreMismatch => "table store differs from its owning tree"@,
            SealError::FutureTable => "table birth generation is newer than its enclosing Seal"@,
            SealError::DuplicateTableObject =>
                "table object identity occurs more than once in the Seal"@,
        }
    }

    /// The message shown for this failure.
    pub fn to_string(&self) -> (message: String)
        ensures
            message@ == self.spec_message(),
    {
        let text = match *self {
            SealError::GenerationExhausted => "Seal generation is exhausted",
            SealError::NonCanonicalGenesis =>
                "generation-one Seal is not the canonical empty genesis",
            SealError::ReplayOwnerNotBeforeSeal =>
                "Seal replay owner is not older than its generation",
            SealError::RunsOverMax => "tree has more than 16 runs",
            SealError::EmptyRun => "sorted run is empty",
            SealError::TablesOverMax => "sorted run has more than 4096 tables",
            SealError::ObjectBytesOverMax => "table object exceeds 134217728 bytes",
            SealError::StoreMismatch => "table store differs from its owning tree",
            SealError::FutureTable => "table birth generation is newer than its enclosing Seal",
            SealError::DuplicateTableObject =>
                "table object identity occurs more than once in the Seal",
        };
        String::from_str(text)
    }
}

} // verus!
