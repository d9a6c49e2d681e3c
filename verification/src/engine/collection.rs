//! Best-effort collection after an advancing Seal publication.
//!
//! A collection reads every log object that the new cut covers, deletes the RUNs among
//! them, and then deletes the tables that the successor no longer selects. The first
//! failure ends it: what stays behind is garbage that a later collection may find.

use vstd::prelude::*;

use crate::domain::coordinate::BatchId;
use crate::domain::partition::PartitionId;
use crate::domain::seal::{Seal, SealModel};
use crate::domain::table::TableObjectId;
use crate::engine::store::{
    targeted_table_deletes, AuthorizedTableDelete, AuthorizedWalRunDelete, ObservedWal,
    TypedStoreError,
};

verus! {

/// The successor advances the source by one generation and its cut by at least one
/// coordinate.
pub open spec fn advances(source: SealModel, successor: SealModel) -> bool {
    &&& source.partition == successor.partition
    &&& source.generation.value + 1 == successor.generation.value
    &&& source.replay.covered() < successor.replay.covered()
}

/// The coordinates that the successor's cut covers and the source's does not.
pub open spec fn collected_batches(source: SealModel, successor: SealModel) -> (BatchId, BatchId) {
    (
        BatchId { value: (source.replay.covered() + 1) as u64 },
        BatchId { value: successor.replay.covered() as u64 },
    )
}

/// The partition, the first and the last coordinate of a collection.
pub fn plan_wal_collection(source: &Seal, successor: &Seal) -> (plan: (
    PartitionId,
    BatchId,
    BatchId,
))
    requires
        source.wf(),
        successor.wf(),
        advances(source@, successor@),
    ensures
        plan.0 == source.partition,
        (plan.1, plan.2) == collected_batches(source@, successor@),
        plan.1.wf(),
        plan.1.value <= plan.2.value,
{
    let first: u64 = match source.replay().batch() {
        None => 1,
        Some(previous) => {
            match successor.replay().batch() {
                Some(cut) => {
                    assert(previous.value < cut.value);
                },
                None => {
                    assert(false);
                },
            }
            previous.value + 1
        },
    };
    let cut: u64 = match successor.replay().batch() {
        Some(cut) => cut.value,
        None => {
            assert(false);
            first
        },
    };
    (source.partition(), BatchId { value: first }, BatchId { value: cut })
}

/// Where a collection stands.
#[derive(Debug, PartialEq, Eq)]
pub enum CollectionPhase {
    /// The log object at a coordinate is being read.
    ReadWal { batch: BatchId },
    /// An observed RUN is being deleted.
    DeleteRun { run: AuthorizedWalRunDelete },
    /// A dropped table is being deleted.
    DeleteTable { at: usize },
    /// Nothing is left, or something failed.
    Done,
}

/// What came back of the current step.
#[derive(Debug, PartialEq, Eq)]
pub enum CollectionEvent {
    WalRead(Result<Option<ObservedWal>, TypedStoreError>),
    Deleted(Result<(), TypedStoreError>),
}

/// One collection in progress.
#[derive(Debug, PartialEq, Eq)]
pub struct Collection {
    pub partition: PartitionId,
    pub first: BatchId,
    pub cut: BatchId,
    pub tables: Vec<AuthorizedTableDelete>,
    pub phase: CollectionPhase,
}

impl Collection {
    /// Only covered coordinates are touched, and only planned tables.
    pub open spec fn wf(self) -> bool {
        &&& self.first.wf()
        &&& self.first.value <= self.cut.value
        &&& match self.phase {
            CollectionPhase::ReadWal { batch } => self.first.value <= batch.value
                <= self.cut.value,
            CollectionPhase::DeleteRun { run } => self.first.value <= run.batch.value
                <= self.cut.value,
            CollectionPhase::DeleteTable { at } => at < self.tables@.len(),
            CollectionPhase::Done => true,
        }
    }

    /// The phase after a coordinate is done with.
    pub open spec fn past(self, batch: BatchId) -> CollectionPhase {
        if batch.value != self.cut.value {
            CollectionPhase::ReadWal { batch: BatchId { value: (batch.value + 1) as u64 } }
        } else if self.tables@.len() > 0 {
            CollectionPhase::DeleteTable { at: 0 }
        } else {
            CollectionPhase::Done
        }
    }

    /// The event answers the phase's question.
    pub open spec fn answers(self, event: CollectionEvent) -> bool {
        match (self.phase, event) {
            (CollectionPhase::ReadWal { batch }, CollectionEvent::WalRead(read)) => {
                read matches Ok(Some(observed)) ==> observed.object@.batch == batch
            },
            (CollectionPhase::DeleteRun { .. }, CollectionEvent::Deleted(_)) => true,
            (CollectionPhase::DeleteTable { .. }, CollectionEvent::Deleted(_)) => true,
            _ => false,
        }
    }

    /// The phase after an answer: a RUN is deleted, a FENCE and a gap are passed over,
    /// and any failure ends the collection.
    pub open spec fn after(self, event: CollectionEvent) -> CollectionPhase {
        match (self.phase, event) {
            (CollectionPhase::ReadWal { batch }, CollectionEvent::WalRead(Ok(Some(observed)))) => {
                if observed.object@.facts is Some {
                    CollectionPhase::DeleteRun {
                        run: AuthorizedWalRunDelete { batch, validator: observed.validator },
                    }
                } else {
                    self.past(batch)
                }
            },
            (CollectionPhase::ReadWal { batch }, CollectionEvent::WalRead(Ok(None))) => self.past(
                batch,
            ),
            (CollectionPhase::DeleteRun { run }, CollectionEvent::Deleted(Ok(_))) => self.past(
                run.batch,
            ),
            (CollectionPhase::DeleteTable { at }, CollectionEvent::Deleted(Ok(_))) => {
                if at + 1 < self.tables@.len() {
                    CollectionPhase::DeleteTable { at: (at + 1) as usize }
                } else {
                    CollectionPhase::Done
                }
            },
            _ => CollectionPhase::Done,
        }
    }

    /// The collection as it starts, for an advancing transition.
    pub open spec fn starts(self, source: SealModel, successor: SealModel) -> bool {
        &&& self.wf()
        &&& self.partition == source.partition
        &&& (self.first, self.cut) == collected_batches(source, successor)
        &&& self.tables@ == crate::engine::store::dropped_objects(
            source.tables(),
            successor.tables(),
        )
        &&& self.phase == (CollectionPhase::ReadWal { batch: self.first })
    }

    /// The collection that an advancing transition asks for.
    pub fn new(source: &Seal, successor: &Seal) -> (collection: Self)
        requires
            source.wf(),
            successor.wf(),
            advances(source@, successor@),
        ensures
            collection.starts(source@, successor@),
    {
        let (partition, first, cut) = plan_wal_collection(source, successor);
        Collection {
            partition,
            first,
            cut,
            tables: targeted_table_deletes(source, successor),
            phase: CollectionPhase::ReadWal { batch: first },
        }
    }

    fn pass(&self, batch: BatchId) -> (phase: CollectionPhase)
        requires
            batch.value <= self.cut.value,
        ensures
            phase == self.past(batch),
    {
        if batch.value != self.cut.value {
            CollectionPhase::ReadWal { batch: BatchId { value: batch.value + 1 } }
        } else if self.tables.len() > 0 {
            CollectionPhase::DeleteTable { at: 0 }
        } else {
            CollectionPhase::Done
        }
    }

    /// Takes the answer to the current step.
    pub fn handle(&mut self, event: CollectionEvent)
        requires
            old(self).wf(),
            old(self).answers(event),
        ensures
            final(self).wf(),
            final(self).partition == old(self).partition,
            final(self).first == old(self).first,
            final(self).cut == old(self).cut,
            final(self).tables == old(self).tables,
            final(self).phase == old(self).after(event),
    {
        let phase = match event {
            CollectionEvent::WalRead(read) => match read {
                Ok(Some(observed)) => {
                    let batch = observed.object.identity().batch;
                    match observed.into_run_delete() {
                        Ok(run) => CollectionPhase::DeleteRun { run },
                        Err(_fence) => self.pass(batch),
                    }
                },
                Ok(None) => match self.phase {
                    CollectionPhase::ReadWal { batch } => self.pass(batch),
                    _ => CollectionPhase::Done,
                },
                Err(_error) => CollectionPhase::Done,
            },
            CollectionEvent::Deleted(deleted) => match deleted {
                Ok(_) => match &self.phase {
                    CollectionPhase::DeleteRun { run } => self.pass(run.batch),
                    CollectionPhase::DeleteTable { at } => {
                        let current: usize = *at;
                        let count: usize = self.tables.len();
                        if current + 1 < count {
                            CollectionPhase::DeleteTable { at: current + 1 }
                        } else {
                            CollectionPhase::Done
                        }
                    },
                    _ => CollectionPhase::Done,
                },
                Err(_error) => CollectionPhase::Done,
            },
        };
        self.phase = phase;
    }
}

/// A failed step is leak-only: it ends the collection, so nothing is deleted after it.
pub proof fn law_failure_ends_collection(collection: Collection, event: CollectionEvent)
    requires
        collection.wf(),
        collection.answers(event),
        event matches CollectionEvent::WalRead(read) ==> read is Err,
        event matches CollectionEvent::Deleted(deleted) ==> deleted is Err,
    ensures
        collection.after(event) is Done,
{
}

/// A FENCE is permanent: reading one deletes nothing.
pub proof fn law_fences_are_never_deleted(collection: Collection, observed: ObservedWal)
    requires
        collection.wf(),
        collection.answers(CollectionEvent::WalRead(Ok(Some(observed)))),
        observed.object@.facts is None,
    ensures
        !(collection.after(CollectionEvent::WalRead(Ok(Some(observed)))) is DeleteRun),
{
}

/// No coordinate that the source's cut already covers, and none after the successor's
/// cut, is ever read or deleted.
pub proof fn law_collection_stays_between_the_cuts(
    source: SealModel,
    successor: SealModel,
    collection: Collection,
)
    requires
        source.wf(),
        successor.wf(),
        advances(source, successor),
        collection.wf(),
        (collection.first, collection.cut) == collected_batches(source, successor),
    ensures
        collection.phase matches CollectionPhase::ReadWal { batch } ==> source.replay.covered()
            < batch.value <= successor.replay.covered(),
        collection.phase matches CollectionPhase::DeleteRun { run } ==> source.replay.covered()
            < run.batch.value <= successor.replay.covered(),
{
}

/// A checkpoint's collection ends after its planned tables: every answered step moves
/// to a later coordinate, from a RUN's read to its delete, or to a later table.
pub open spec fn steps_left(collection: Collection) -> nat {
    let tables = collection.tables@.len();
    match collection.phase {
        CollectionPhase::ReadWal { batch } => (2 * (collection.cut.value - batch.value) + 2
            + tables) as nat,
        CollectionPhase::DeleteRun { run } => (2 * (collection.cut.value - run.batch.value) + 1
            + tables) as nat,
        CollectionPhase::DeleteTable { at } => (tables - at) as nat,
        CollectionPhase::Done => 0,
    }
}

/// Every collection finishes: each answer leaves fewer steps.
pub proof fn law_collection_finishes(
    before: Collection,
    event: CollectionEvent,
    later: Collection,
)
    requires
        before.wf(),
        before.answers(event),
        later.wf(),
        later.cut == before.cut,
        later.tables == before.tables,
        later.phase == before.after(event),
    ensures
        steps_left(later) < steps_left(before),
{
    assert(before.tables@.len() == before.tables.len());
}

/// What the store holds of one partition: the log's objects by coordinate, and the
/// tables.
pub struct StoreModel {
    pub log: Map<u64, ObservedWal>,
    pub tables: Set<TableObjectId>,
}

impl StoreModel {
    /// Every log object stands at its own coordinate.
    pub open spec fn wf(self) -> bool {
        forall|batch: u64| #[trigger]
            self.log.contains_key(batch) ==> self.log[batch].object@.batch.value == batch
    }

    /// A RUN stands at the coordinate.
    pub open spec fn has_run(self, batch: u64) -> bool {
        self.log.contains_key(batch) && self.log[batch].object@.facts is Some
    }
}

/// What becomes of one step: it is answered, or it fails, with its work done or not.
pub enum StepOutcome {
    Answered,
    Failed { done: bool, error: TypedStoreError },
}

impl Collection {
    /// The answer to the current step.
    pub open spec fn event(self, store: StoreModel, outcome: StepOutcome) -> CollectionEvent {
        match (self.phase, outcome) {
            (CollectionPhase::ReadWal { batch }, StepOutcome::Answered) => CollectionEvent::WalRead(
                if store.log.contains_key(batch.value) {
                    Ok(Some(store.log[batch.value]))
                } else {
                    Ok(None)
                },
            ),
            (CollectionPhase::ReadWal { .. }, StepOutcome::Failed { error, .. }) => {
                CollectionEvent::WalRead(Err(error))
            },
            (_, StepOutcome::Answered) => CollectionEvent::Deleted(Ok(())),
            (_, StepOutcome::Failed { error, .. }) => CollectionEvent::Deleted(Err(error)),
        }
    }

    /// What the store holds once the current step's work is done.
    pub open spec fn worked(self, store: StoreModel) -> StoreModel {
        match self.phase {
            CollectionPhase::DeleteRun { run } => StoreModel {
                log: store.log.remove(run.batch.value),
                ..store
            },
            CollectionPhase::DeleteTable { at } => StoreModel {
                tables: store.tables.remove(self.tables@[at as int].object),
                ..store
            },
            _ => store,
        }
    }

    /// The collection after an answer.
    pub open spec fn answered(self, event: CollectionEvent) -> Collection {
        Collection { phase: self.after(event), ..self }
    }

    /// The coordinate is still to be read, or its RUN to be deleted.
    pub open spec fn awaits_batch(self, batch: u64) -> bool {
        match self.phase {
            CollectionPhase::ReadWal { batch: next } => next.value <= batch <= self.cut.value,
            CollectionPhase::DeleteRun { run } => run.batch.value <= batch <= self.cut.value,
            _ => false,
        }
    }

    /// The table is still to be deleted.
    pub open spec fn awaits_table(self, object: TableObjectId) -> bool {
        let planned = self.tables@;
        match self.phase {
            CollectionPhase::DeleteTable { at } => planned.skip(at as int).contains(
                AuthorizedTableDelete { object },
            ),
            CollectionPhase::Done => false,
            _ => planned.contains(AuthorizedTableDelete { object }),
        }
    }

    /// The store without the RUNs and the tables that are still to be deleted.
    pub open spec fn cleared(self, store: StoreModel) -> StoreModel {
        StoreModel {
            log: store.log.filter_keys(
                |batch: u64| !(self.awaits_batch(batch) && store.has_run(batch)),
            ),
            tables: store.tables.filter(|object: TableObjectId| !self.awaits_table(object)),
        }
    }

    /// What is being deleted is a RUN, if it is still there.
    pub open spec fn observed(self, store: StoreModel) -> bool {
        self.phase matches CollectionPhase::DeleteRun { run } ==> store.log.contains_key(
            run.batch.value,
        ) ==> store.has_run(run.batch.value)
    }
}

/// Runs a collection against a store until it ends or the outcomes do.
pub open spec fn collect(
    collection: Collection,
    store: StoreModel,
    outcomes: Seq<StepOutcome>,
) -> (Collection, StoreModel)
    decreases outcomes.len(),
{
    if collection.phase is Done || outcomes.len() == 0 {
        (collection, store)
    } else {
        let outcome = outcomes.first();
        let worked = if outcome matches StepOutcome::Failed { done, .. } && !done {
            store
        } else {
            collection.worked(store)
        };
        collect(
            collection.answered(collection.event(store, outcome)),
            worked,
            outcomes.drop_first(),
        )
    }
}

/// No step fails.
pub open spec fn all_answered(outcomes: Seq<StepOutcome>) -> bool {
    forall|i: int| 0 <= i < outcomes.len() ==> #[trigger] outcomes[i] is Answered
}

/// An answered step leaves less to do, and what is then still to be cleared is cleared
/// to the same store.
proof fn lemma_answered_step(collection: Collection, store: StoreModel)
    requires
        collection.wf(),
        store.wf(),
        collection.observed(store),
        !(collection.phase is Done),
    ensures
        ({
            let later = collection.answered(collection.event(store, StepOutcome::Answered));
            let worked = collection.worked(store);
            &&& later.wf()
            &&& worked.wf()
            &&& later.observed(worked)
            &&& later.cleared(worked) == collection.cleared(store)
            &&& steps_left(later) < steps_left(collection)
        }),
{
    let event = collection.event(store, StepOutcome::Answered);
    let later = collection.answered(event);
    let worked = collection.worked(store);
    let planned = collection.tables@;
    assert(planned.len() == collection.tables.len());
    law_collection_finishes(collection, event, later);
    assert(planned.skip(0) =~= planned);
    assert forall|object: TableObjectId|
        worked.tables.contains(object) implies #[trigger] later.awaits_table(object)
        == collection.awaits_table(object) by {
        if let CollectionPhase::DeleteTable { at } = collection.phase {
            let target = AuthorizedTableDelete { object };
            let rest = planned.skip(at as int);
            assert(rest[0] == planned[at as int]);
            assert(planned.skip(at + 1) =~= rest.drop_first());
            if rest.contains(target) {
                let k = choose|k: int| 0 <= k < rest.len() && rest[k] == target;
                assert(k > 0);
                assert(rest.drop_first()[k - 1] == target);
            }
            if rest.drop_first().contains(target) {
                let k = choose|k: int|
                    0 <= k < rest.drop_first().len() && rest.drop_first()[k] == target;
                assert(rest[k + 1] == target);
            }
        }
    }
    assert(later.cleared(worked).log =~= collection.cleared(store).log);
    assert forall|object: TableObjectId|
        later.cleared(worked).tables.contains(object) == collection.cleared(store).tables.contains(
            object,
        ) by {
        if let CollectionPhase::DeleteTable { at } = collection.phase {
            assert(planned.skip(at as int)[0] == planned[at as int]);
        }
        assert(worked.tables.contains(object) ==> later.awaits_table(object)
            == collection.awaits_table(object));
    }
    assert(later.cleared(worked).tables =~= collection.cleared(store).tables);
}

/// A run without failures ends, and clears the store.
proof fn lemma_answered_run(
    collection: Collection,
    store: StoreModel,
    outcomes: Seq<StepOutcome>,
)
    requires
        collection.wf(),
        store.wf(),
        collection.observed(store),
        all_answered(outcomes),
        outcomes.len() >= steps_left(collection),
    ensures
        collect(collection, store, outcomes).0.phase is Done,
        collect(collection, store, outcomes).1 == collection.cleared(store),
    decreases outcomes.len(),
{
    if collection.phase is Done {
        assert(collection.cleared(store).log =~= store.log);
        assert(collection.cleared(store).tables =~= store.tables);
    } else {
        lemma_answered_step(collection, store);
        assert(outcomes.first() is Answered);
        assert(all_answered(outcomes.drop_first()));
        lemma_answered_run(
            collection.answered(collection.event(store, StepOutcome::Answered)),
            collection.worked(store),
            outcomes.drop_first(),
        );
    }
}

/// Nothing is added, and what stays is unchanged.
pub open spec fn is_part(store: StoreModel, whole: StoreModel) -> bool {
    &&& store.log.submap_of(whole.log)
    &&& store.tables.subset_of(whole.tables)
}

/// A run of a collection that has begun at `start`, with failures or without, takes
/// away only what `start` clears.
proof fn lemma_run_takes_garbage(
    start: Collection,
    collection: Collection,
    store: StoreModel,
    outcomes: Seq<StepOutcome>,
)
    requires
        start.phase == (CollectionPhase::ReadWal { batch: start.first }),
        collection.first == start.first,
        collection.cut == start.cut,
        collection.tables == start.tables,
        collection.wf(),
        store.wf(),
        collection.observed(store),
    ensures
        ({
            let after = collect(collection, store, outcomes).1;
            &&& after.wf()
            &&& is_part(after, store)
            &&& start.cleared(after) == start.cleared(store)
        }),
    decreases outcomes.len(),
{
    if !(collection.phase is Done) && outcomes.len() > 0 {
        let outcome = outcomes.first();
        let worked = collection.worked(store);
        lemma_answered_step(collection, store);
        assert(is_part(worked, store));
        assert(start.cleared(worked).log =~= start.cleared(store).log);
        assert(start.cleared(worked).tables =~= start.cleared(store).tables) by {
            if let CollectionPhase::DeleteTable { at } = collection.phase {
                assert(start.tables@[at as int] == collection.tables@[at as int]);
                assert(start.awaits_table(collection.tables@[at as int].object));
            }
        }
        let later = collection.answered(collection.event(store, outcome));
        let rest = outcomes.drop_first();
        match outcome {
            StepOutcome::Answered => {
                lemma_run_takes_garbage(start, later, worked, rest);
                let after = collect(later, worked, rest).1;
                assert(collect(collection, store, outcomes).1 == after);
                assert forall|batch: u64| #[trigger]
                    after.log.contains_key(batch) implies store.log.contains_key(batch)
                    && after.log[batch] == store.log[batch] by {
                    assert(worked.log.contains_key(batch));
                }
                assert(is_part(after, store));
            },
            StepOutcome::Failed { done, .. } => {
                let left = if done {
                    worked
                } else {
                    store
                };
                assert(later.phase is Done);
                assert(collect(later, left, rest).1 == left);
                assert(collect(collection, store, outcomes) == collect(later, left, rest));
            },
        }
    }
}

/// Whatever fails on the way, a collection adds nothing, changes nothing and takes
/// away only RUNs between the two cuts and dropped tables: every FENCE stays, every
/// RUN outside the two cuts, every table that the successor selects, and every table
/// that the source does not select.
pub proof fn law_collection_takes_only_garbage(
    source: SealModel,
    successor: SealModel,
    collection: Collection,
    store: StoreModel,
    outcomes: Seq<StepOutcome>,
)
    requires
        source.wf(),
        successor.wf(),
        advances(source, successor),
        collection.starts(source, successor),
        store.wf(),
    ensures
        ({
            let after = collect(collection, store, outcomes).1;
            &&& is_part(after, store)
            &&& forall|batch: u64| #[trigger]
                store.log.contains_key(batch) && !(store.has_run(batch)
                    && source.replay.covered() < batch <= successor.replay.covered())
                    ==> after.log.contains_key(batch)
            &&& forall|object: TableObjectId| #[trigger]
                store.tables.contains(object) && (crate::engine::store::has_object(
                    successor.tables(),
                    object,
                ) || !crate::engine::store::has_object(source.tables(), object))
                    ==> after.tables.contains(object)
        }),
{
    let after = collect(collection, store, outcomes).1;
    lemma_run_takes_garbage(collection, collection, store, outcomes);
    assert forall|batch: u64| #[trigger]
        store.log.contains_key(batch) && !(store.has_run(batch) && source.replay.covered() < batch
            <= successor.replay.covered()) implies after.log.contains_key(batch) by {
        assert(collection.cleared(store).log.contains_key(batch));
        assert(collection.cleared(after).log.contains_key(batch));
    }
    assert forall|object: TableObjectId| #[trigger]
        store.tables.contains(object) && (crate::engine::store::has_object(
            successor.tables(),
            object,
        ) || !crate::engine::store::has_object(
            source.tables(),
            object,
        )) implies after.tables.contains(object) by {
        crate::engine::store::law_deletes_are_exactly_the_dropped_tables(
            source.tables(),
            successor.tables(),
            object,
        );
        assert(collection.cleared(store).tables.contains(object));
        assert(collection.cleared(after).tables.contains(object));
    }
}

/// A collection without failures ends after its last step, and then no RUN between the
/// two cuts and no dropped table is left.
pub proof fn law_unhindered_collection_takes_all_garbage(
    source: SealModel,
    successor: SealModel,
    collection: Collection,
    store: StoreModel,
    outcomes: Seq<StepOutcome>,
)
    requires
        source.wf(),
        successor.wf(),
        advances(source, successor),
        collection.starts(source, successor),
        store.wf(),
        all_answered(outcomes),
        outcomes.len() >= steps_left(collection),
    ensures
        collect(collection, store, outcomes).0.phase is Done,
        ({
            let after = collect(collection, store, outcomes).1;
            &&& forall|batch: u64|
                source.replay.covered() < batch <= successor.replay.covered()
                    ==> !#[trigger] after.has_run(batch)
            &&& forall|object: TableObjectId|
                crate::engine::store::has_object(source.tables(), object)
                    && !crate::engine::store::has_object(successor.tables(), object)
                    ==> !#[trigger] after.tables.contains(object)
        }),
{
    let after = collect(collection, store, outcomes).1;
    lemma_answered_run(collection, store, outcomes);
    assert forall|batch: u64|
        source.replay.covered() < batch <= successor.replay.covered() implies !#[trigger] after.has_run(
        batch,
    ) by {
        if after.has_run(batch) {
            assert(store.log.contains_key(batch));
            assert(collection.awaits_batch(batch));
        }
    }
    assert forall|object: TableObjectId|
        crate::engine::store::has_object(source.tables(), object)
            && !crate::engine::store::has_object(
            successor.tables(),
            object,
        ) implies !#[trigger] after.tables.contains(object) by {
        crate::engine::store::law_deletes_are_exactly_the_dropped_tables(
            source.tables(),
            successor.tables(),
            object,
        );
        assert(collection.awaits_table(object));
    }
}

/// Collecting again after a run that failed anywhere deletes the rest: the store is
/// then what one run without failures would have left.
pub proof fn law_collecting_again_takes_the_rest(
    source: SealModel,
    successor: SealModel,
    collection: Collection,
    store: StoreModel,
    hindered: Seq<StepOutcome>,
    outcomes: Seq<StepOutcome>,
)
    requires
        source.wf(),
        successor.wf(),
        advances(source, successor),
        collection.starts(source, successor),
        store.wf(),
        all_answered(outcomes),
        outcomes.len() >= steps_left(collection),
    ensures
        collect(collection, collect(collection, store, hindered).1, outcomes).1 == collect(
            collection,
            store,
            outcomes,
        ).1,
{
    lemma_run_takes_garbage(collection, collection, store, hindered);
    lemma_answered_run(collection, store, outcomes);
    lemma_answered_run(collection, collect(collection, store, hindered).1, outcomes);
}

} // verus!
