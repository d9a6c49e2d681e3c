//! What the log says: replaying it over the base reconstructs what became durable.
//!
//! The log of a writer holds the objects at the coordinates from its Seal's cut up to
//! its durable head. Every step of a writer and of a bootstrap keeps the same relation
//! between base, log and durable state, so a state that one writer acknowledged is the
//! state that the next one recovers.

use vstd::prelude::*;

use crate::domain::coordinate::{BatchId, OwnerToken};
use crate::domain::partition::PartitionId;
use crate::domain::seal::{SealModel, WalReplayPoint};
use crate::domain::wal::WalModel;
use crate::engine::bootstrap::{EventModel, PhaseModel};
use crate::engine::forest::ForestModel;
use crate::engine::store::WalEstablishment;
use crate::engine::writer_effects::ExitModel;
use crate::engine::writer_state::{EnvelopeModel, WriterModel};

verus! {

/// What replaying log objects in order gives: the owner and the state after them, or
/// the first anomaly.
pub open spec fn replayed(
    owner: Option<OwnerToken>,
    forest: ForestModel,
    log: Seq<WalModel>,
) -> Result<(Option<OwnerToken>, ForestModel), Seq<char>>
    decreases log.len(),
{
    if log.len() == 0 {
        Ok((owner, forest))
    } else {
        match replayed(owner, forest, log.drop_last()) {
            Ok((owner, forest)) => crate::engine::recovery::spec_replay_object(
                owner,
                forest,
                log.last().batch,
                log.last(),
            ),
            Err(anomaly) => Err(anomaly),
        }
    }
}

/// The objects are a partition's, at the coordinates directly after `covered`.
pub open spec fn follows(log: Seq<WalModel>, partition: PartitionId, covered: u64) -> bool {
    forall|i: int|
        #![trigger log[i]]
        0 <= i < log.len() ==> log[i].partition == partition && log[i].batch.value == covered + 1
            + i
}

impl WriterModel {
    /// The log from the Seal's cut through the durable head, replayed over the base,
    /// gives the durable state under this writer's ownership.
    pub open spec fn recovers_from(self, log: Seq<WalModel>) -> bool {
        &&& follows(log, self.seal.partition, self.seal.replay.covered())
        &&& log.len() == self.durable_batch.value - self.seal.replay.covered()
        &&& replayed(
            crate::engine::recovery::spec_replay_owner(self.seal.replay),
            self.base,
            log,
        ) == Ok::<_, Seq<char>>((Some(self.claim.owner), self.durable))
    }

    /// The RUN in flight.
    pub open spec fn flight_run(self) -> WalModel {
        WalModel {
            partition: self.seal.partition,
            batch: self.flight->0.batch,
            owner: self.claim.owner,
            facts: Some(
                crate::engine::writer_state::barrier_facts(self.flight->0.commands),
            ),
        }
    }
}

impl PhaseModel {
    /// The bootstrap has read these log objects, and its state is what they replay to.
    pub open spec fn has_replayed(self, log: Seq<WalModel>) -> bool {
        match self {
            PhaseModel::Replay { takeover, forest, next, owner, .. } => {
                &&& follows(log, takeover.seal.partition, takeover.seal.replay.covered())
                &&& log.len() == next.value - takeover.seal.replay.covered() - 1
                &&& replayed(
                    crate::engine::recovery::spec_replay_owner(takeover.seal.replay),
                    takeover.base,
                    log,
                ) == Ok::<_, Seq<char>>((owner, forest))
            },
            PhaseModel::FinalRefresh { takeover, forest, fence } => {
                &&& follows(log, takeover.seal.partition, takeover.seal.replay.covered())
                &&& log.len() == fence.batch.value - takeover.seal.replay.covered()
                &&& replayed(
                    crate::engine::recovery::spec_replay_owner(takeover.seal.replay),
                    takeover.base,
                    log,
                ) == Ok::<_, Seq<char>>((Some(takeover.claim.owner), forest))
            },
            PhaseModel::Ready { state } => state.recovers_from(log),
            _ => true,
        }
    }

    /// The log object that the outcome brings to replay is the one that was asked for.
    pub open spec fn asked_for(self, event: EventModel) -> bool {
        self matches PhaseModel::Replay { takeover, next, .. } ==> (event matches EventModel::WalRead(
            Ok(Some(object)),
        ) ==> object.partition == takeover.seal.partition && object.batch == next)
    }

    /// The log objects that were read after the outcome.
    pub open spec fn read_after(self, event: EventModel, log: Seq<WalModel>) -> Seq<WalModel> {
        match (self, event) {
            (PhaseModel::PlaceFence { .. }, _) => Seq::empty(),
            (PhaseModel::Replay { .. }, EventModel::WalRead(Ok(Some(object)))) => log.push(object),
            _ => log,
        }
    }
}

/// Replaying a log in two parts is replaying it whole.
pub proof fn lemma_replay_appends(
    owner: Option<OwnerToken>,
    forest: ForestModel,
    first: Seq<WalModel>,
    second: Seq<WalModel>,
)
    ensures
        replayed(owner, forest, first + second) == (match replayed(owner, forest, first) {
            Ok((owner, forest)) => replayed(owner, forest, second),
            Err(anomaly) => Err(anomaly),
        }),
    decreases second.len(),
{
    if second.len() == 0 {
        assert(first + second =~= first);
    } else {
        assert((first + second).drop_last() =~= first + second.drop_last());
        assert((first + second).last() == second.last());
        lemma_replay_appends(owner, forest, first, second.drop_last());
    }
}

proof fn lemma_replay_pushes(
    owner: Option<OwnerToken>,
    forest: ForestModel,
    log: Seq<WalModel>,
    object: WalModel,
)
    ensures
        replayed(owner, forest, log.push(object)) == (match replayed(owner, forest, log) {
            Ok((owner, forest)) => crate::engine::recovery::spec_replay_object(
                owner,
                forest,
                object.batch,
                object,
            ),
            Err(anomaly) => Err(anomaly),
        }),
{
    assert(log.push(object).drop_last() =~= log);
}

/// A bootstrap's state is always what the log objects that it has read replay to, and
/// when it is ready they are the whole log.
pub proof fn law_bootstrap_recovers_the_log(
    phase: PhaseModel,
    event: EventModel,
    log: Seq<WalModel>,
)
    requires
        phase.wf(),
        phase.awaits(event),
        phase.has_replayed(log),
        phase.asked_for(event),
    ensures
        spec_advances_to(phase, event) matches Some(later) ==> later.has_replayed(
            phase.read_after(event, log),
        ),
{
    let after = phase.read_after(event, log);
    match (phase, event) {
        (
            PhaseModel::Replay { takeover, forest, next, fence, owner },
            EventModel::WalRead(Ok(Some(object))),
        ) => {
            lemma_replay_pushes(
                crate::engine::recovery::spec_replay_owner(takeover.seal.replay),
                takeover.base,
                log,
                object,
            );
        },
        _ => {},
    }
}

/// Where a bootstrap goes on, unless it ends.
pub open spec fn spec_advances_to(phase: PhaseModel, event: EventModel) -> Option<PhaseModel> {
    match crate::engine::bootstrap::spec_advance(phase, event) {
        Ok(later) => Some(later),
        Err(_) => None,
    }
}

/// A RUN that becomes durable extends the log by itself: the log with it replays to
/// the new durable state.
pub proof fn law_durable_runs_extend_the_log(state: WriterModel, log: Seq<WalModel>)
    requires
        state.wf(),
        state.flight is Some,
        state.recovers_from(log),
    ensures
        state.record_durable().recovers_from(log.push(state.flight_run())),
{
    lemma_replay_pushes(
        crate::engine::recovery::spec_replay_owner(state.seal.replay),
        state.base,
        log,
        state.flight_run(),
    );
}

/// Nothing but durability changes what the log must hold: not a command, admitted or
/// refused, not a RUN on its way, not a planned checkpoint. The RUN on its way is the
/// one that the pending facts formed.
pub proof fn law_only_durability_changes_the_log(
    state: WriterModel,
    envelope: EnvelopeModel,
    log: Seq<WalModel>,
)
    requires
        state.recovers_from(log),
    ensures
        state.after_command(envelope).0.recovers_from(log),
        state.take_flight().0.recovers_from(log),
        state.take_flight().1 is Run ==> state.take_flight().0.flight_run() == state.pending_run(),
        state.checkpointing().recovers_from(log),
{
}

/// A published checkpoint needs only the log behind its cut: the snapshot stands for
/// everything that was durable when the checkpoint was planned.
pub proof fn law_checkpoints_shorten_the_log(
    planned: WriterModel,
    state: WriterModel,
    successor: SealModel,
    covered: Seq<WalModel>,
    suffix: Seq<WalModel>,
)
    requires
        planned.recovers_from(covered),
        state.recovers_from(covered + suffix),
        planned.claim == state.claim,
        planned.seal == state.seal,
        planned.base == state.base,
        successor.partition == state.seal.partition,
        successor.replay == (WalReplayPoint::Through {
            batch: planned.durable_batch,
            owner: state.claim.owner,
        }),
    ensures
        state.installed(successor, planned.durable).recovers_from(suffix),
{
    let whole = covered + suffix;
    lemma_replay_appends(
        crate::engine::recovery::spec_replay_owner(state.seal.replay),
        state.base,
        covered,
        suffix,
    );
    assert forall|i: int| #![trigger suffix[i]] 0 <= i < suffix.len() implies suffix[i].partition
        == successor.partition && suffix[i].batch.value == successor.replay.covered() + 1 + i by {
        assert(whole[covered.len() + i] == suffix[i]);
    }
}

/// Whoever takes over recovers exactly the durable state of the writer before: the
/// log, and behind it the takeover FENCE of a newer claim, replay to that state under
/// the new owner.
pub proof fn law_takeover_recovers_the_durable_state(
    state: WriterModel,
    log: Seq<WalModel>,
    fence: WalModel,
)
    requires
        state.recovers_from(log),
        fence.facts is None,
        fence.owner.generation.value > state.claim.owner.generation.value,
    ensures
        replayed(
            crate::engine::recovery::spec_replay_owner(state.seal.replay),
            state.base,
            log.push(fence),
        ) == Ok::<_, Seq<char>>((Some(fence.owner), state.durable)),
{
    lemma_replay_pushes(
        crate::engine::recovery::spec_replay_owner(state.seal.replay),
        state.base,
        log,
        fence,
    );
}

/// A takeover FENCE stops the writer before: it takes the very coordinate of that
/// writer's next RUN, and a writer that finds its coordinate occupied ends, fenced.
pub proof fn law_takeover_stops_the_previous_writer(state: WriterModel)
    requires
        state.wf(),
    ensures
        ({
            let next = match state.flight {
                Some(flight) => flight.batch,
                None => state.next_batch,
            };
            &&& crate::engine::recovery::spec_fence_candidate(
                state.seal.replay.spec_batch(),
                Some(state.durable_batch),
            ) == Ok::<BatchId, crate::engine::bootstrap_exit::ExitModel>(next)
            &&& crate::engine::writer_effects::wal_exit(next, Ok(WalEstablishment::Occupied))
                == Some(ExitModel::Fenced(next))
        }),
{
}

} // verus!
