//! What a takeover does, said of its parts: where its fence goes, what replay keeps, and
//! what each outcome of the store leads to.

use vstd::prelude::*;

use crate::domain::coordinate::{BatchId, OwnerToken};
use crate::domain::seal::{TableRef, WalReplayPoint};
use crate::domain::wal::WalObject;
use crate::engine::bootstrap::{
    BootstrapEffect, BootstrapEvent, BootstrapPhase, Takeover,
};
use crate::engine::bootstrap_exit::{map_typed_store_error, BootstrapExit};
use crate::engine::forest::{FoldContradiction, Forest, ForestModel};
use crate::engine::recovery::{
    bound_fence, guard_fence_tail, guarded_tail, plan_fence_candidate, replan_fence, replay_object,
    replay_owner, replay_start, BoundedFence, FenceTailGate,
};
use crate::engine::store::{
    GenesisEstablishment, SealPublication, TypedStoreError, WalEstablishment,
};

verus! {

/// The number of a coordinate, and zero for none.
pub open spec fn number_of(batch: Option<BatchId>) -> int {
    match batch {
        Some(batch) => batch.value as int,
        None => 0,
    }
}

/// The exit says the same as the failed store operation: what may be retried may be
/// retried, everything else is a contradiction.
pub open spec fn reports(exit: BootstrapExit, error: TypedStoreError) -> bool {
    match error {
        TypedStoreError::Retryable { detail: cause } => exit matches BootstrapExit::Retryable {
            detail,
        } && detail@ == cause@,
        TypedStoreError::Rejected { detail: cause } => exit matches BootstrapExit::Contradiction {
            detail,
        } && detail@ == cause@,
        TypedStoreError::Contradiction { detail: cause } => exit
            matches BootstrapExit::Contradiction { detail } && detail@ == cause@,
    }
}

/// Every failed store operation is reported as it was.
pub proof fn law_failures_are_reported(error: TypedStoreError, exit: BootstrapExit)
    requires
        call_ensures(map_typed_store_error, (error,), exit),
    ensures
        reports(exit, error),
{
}

/// The fence candidate is the first coordinate after both the cut and the listed tail,
/// and there is one unless one of them is the last coordinate there is.
pub proof fn law_fence_candidate_is_the_first_free_coordinate(
    cut: Option<BatchId>,
    tail: Option<BatchId>,
    candidate: Result<BatchId, BootstrapExit>,
)
    requires
        call_ensures(plan_fence_candidate, (cut, tail), candidate),
    ensures
        candidate is Err <==> number_of(cut) == u64::MAX || number_of(tail) == u64::MAX,
        candidate matches Ok(fence) ==> {
            &&& fence.value > number_of(cut)
            &&& fence.value > number_of(tail)
            &&& fence.value == number_of(cut) + 1 || fence.value == number_of(tail) + 1
        },
        candidate matches Err(exit) ==> exit is Retryable,
{
}

/// A fence is accepted exactly when it is one to a thousand and twenty-four coordinates
/// after the cut and a coordinate is left behind it; it is kept as it is. One that is not
/// after the cut is a contradiction, and any other refusal may be retried.
pub proof fn law_fences_are_bounded(
    cut: Option<BatchId>,
    fence: BatchId,
    bounded: Result<BoundedFence, BootstrapExit>,
)
    requires
        call_ensures(bound_fence, (cut, fence), bounded),
    ensures
        bounded is Ok <==> fence.value < u64::MAX && 1 <= fence.value - number_of(cut) <= 1024,
        bounded matches Ok(kept) ==> kept.batch == fence && kept.next_batch.value == fence.value
            + 1,
        bounded matches Err(exit) ==> if fence.value < u64::MAX && fence.value <= number_of(cut) {
            exit is Contradiction
        } else {
            exit is Retryable
        },
{
}

/// After an occupied candidate the fence goes further: the new one is after the occupied
/// one, the cut and the tail; a listing that does not reach the occupied coordinate is a
/// contradiction.
pub proof fn law_replanned_fences_move_on(
    cut: Option<BatchId>,
    occupied: BatchId,
    tail: Option<BatchId>,
    bounded: Result<BoundedFence, BootstrapExit>,
)
    requires
        call_ensures(replan_fence, (cut, occupied, tail), bounded),
    ensures
        bounded matches Ok(fence) ==> {
            &&& fence.batch.value > occupied.value
            &&& fence.batch.value > number_of(cut)
            &&& fence.batch.value > number_of(tail)
            &&& fence.batch.value == number_of(cut) + 1 || fence.batch.value == number_of(tail) + 1
            &&& fence.batch.value - number_of(cut) <= 1024
            &&& fence.next_batch.value == fence.batch.value + 1
        },
        number_of(tail) < occupied.value && number_of(cut) < occupied.value ==> (bounded
            matches Err(exit) && exit is Contradiction),
        occupied.value <= number_of(tail) < u64::MAX - 1 && number_of(cut) <= number_of(tail)
            && number_of(tail) + 1 - number_of(cut) <= 1024 ==> bounded is Ok,
{
}

/// Replay starts directly after the cut, under the owner of the cut; a partition that was
/// never checkpointed starts at the first coordinate, under nobody.
pub proof fn law_replay_starts_after_the_cut(
    replay: WalReplayPoint,
    owner: Option<OwnerToken>,
    start: Result<BatchId, BootstrapExit>,
)
    requires
        call_ensures(replay_owner, (replay,), owner),
        call_ensures(replay_start, (replay,), start),
    ensures
        match replay {
            WalReplayPoint::Genesis => owner is None && (start matches Ok(first) && first.value
                == 1),
            WalReplayPoint::Through { batch, owner: held } => {
                &&& owner == Some(held)
                &&& start is Ok <==> batch.value < u64::MAX
                &&& start matches Ok(first) ==> first.value == batch.value + 1
            },
        },
{
}

/// A FENCE is replayed exactly when its owner is newer than the one so far; it hands the
/// log to that owner and changes no state. A RUN is replayed exactly when it is of the
/// owner so far and its facts fold, dated with its coordinate; it keeps the owner and
/// gives the folded state.
pub proof fn law_replay_of_one_object(
    owner: Option<OwnerToken>,
    forest: Forest,
    next: BatchId,
    object: WalObject,
    replayed: Result<(Option<OwnerToken>, Forest), String>,
)
    requires
        call_ensures(replay_object, (owner, forest, next, &object), replayed),
    ensures
        object matches WalObject::Fence(fence) ==> {
            &&& replayed is Ok <==> (owner matches Some(current) ==> current.generation.value
                < fence.owner.generation.value)
            &&& replayed matches Ok((after, state)) ==> after == Some(fence.owner) && state@
                == forest@
        },
        object matches WalObject::Run(run) ==> {
            let folded = forest@.fold_all(
                next,
                crate::domain::wal::facts_model(run.facts.values@),
            );
            &&& replayed is Ok <==> owner == Some(run.owner) && folded is Ok
            &&& replayed matches Ok((after, state)) ==> after == owner && folded == Ok::<
                ForestModel,
                FoldContradiction,
            >(state@)
        },
{
}

/// A listed tail is looked at exactly when it is after the cut.
pub proof fn law_tails_after_the_cut_are_guarded(
    cut: Option<BatchId>,
    tail: Option<BatchId>,
    guarded: Option<BatchId>,
)
    requires
        tail matches Some(tail) ==> tail.wf(),
        call_ensures(guarded_tail, (cut, tail), guarded),
    ensures
        guarded is Some <==> number_of(tail) > number_of(cut),
        guarded is Some ==> guarded == tail,
{
}

/// A fence goes behind the listed tail exactly when the tail can be read and its owner is
/// older than the claim; a tail that vanished may be retried, one of a newer or equal
/// owner, or that contradicts its key, is an anomaly.
pub proof fn law_fences_go_behind_older_owners(
    tail: BatchId,
    read: Result<Option<WalObject>, TypedStoreError>,
    claim_owner: OwnerToken,
    gate: Result<FenceTailGate, BootstrapExit>,
)
    requires
        call_ensures(guard_fence_tail, (tail, read, claim_owner), gate),
    ensures
        match read {
            Ok(None) => gate matches Err(exit) && exit is Retryable,
            Ok(Some(object)) => {
                let held = match object {
                    WalObject::Fence(fence) => fence.owner,
                    WalObject::Run(run) => run.owner,
                };
                &&& gate is Ok
                &&& gate->Ok_0 is Clear <==> held.generation.value
                    < claim_owner.generation.value
            },
            Err(TypedStoreError::Contradiction { detail: cause }) => gate matches Ok(
                FenceTailGate::RefreshAnomaly { detail },
            ) && detail@ == cause@,
            Err(error) => gate matches Err(exit) && reports(exit, error),
        },
{
}

// Phases

/// The same takeover: nothing of the claim, the Seal or the base changed.
pub open spec fn same_takeover(before: Takeover, after: Takeover) -> bool {
    &&& after.claim == before.claim
    &&& after.seal@ == before.seal@
    &&& after.base@ == before.base@
}

/// The head: an existing Seal is read at its generation; without one a partition is
/// provisioned with the first Seal, which has no tables and nothing to replay, and whose
/// create, whoever won it, is followed by reading the head.
#[verifier::rlimit(50)]
pub proof fn law_bootstrap_finds_or_provisions_the_head(
    phase: BootstrapPhase,
    event: BootstrapEvent,
    later: Result<BootstrapPhase, BootstrapExit>,
)
    requires
        phase.wf(),
        event@.wf(),
        phase@.awaits(event@),
        call_ensures(BootstrapPhase::advance, (phase, event), later),
    ensures
        phase is DiscoverHead ==> match event->HeadObserved_0 {
            Ok(Some(newest)) => later matches Ok(BootstrapPhase::ReadHead { generation })
                && generation == newest,
            Ok(None) => later matches Ok(BootstrapPhase::MintPartition),
            Err(error) => later matches Err(exit) && reports(exit, error),
        },
        phase is MintPartition ==> (later matches Ok(
            BootstrapPhase::ProvisionGenesis { candidate },
        ) && {
            let seal = candidate.encoded.seal;
            &&& seal.partition == event->PartitionMinted_0
            &&& seal.generation.value == 1
            &&& seal.replay == WalReplayPoint::Genesis
            &&& seal.directory@.len() == 0
            &&& seal.ledger@.len() == 0
        }),
        phase is ProvisionGenesis ==> match event->GenesisEstablished_0 {
            Ok(GenesisEstablishment::Established) => later matches Ok(
                BootstrapPhase::ReadHead { generation },
            ) && generation.value == 1,
            Ok(GenesisEstablishment::LostRace) => later matches Ok(BootstrapPhase::DiscoverHead),
            Ok(GenesisEstablishment::Unresolved) => later matches Err(exit) && exit is Retryable,
            Err(error) => later matches Err(exit) && reports(exit, error),
        },
{
}

/// The planned runs are all of a tree's, which has its newest first, from the oldest on.
pub open spec fn oldest_first(planned: Seq<Seq<TableRef>>, tree: Seq<Seq<TableRef>>) -> bool {
    &&& planned.len() == tree.len()
    &&& forall|i: int|
        0 <= i < tree.len() ==> #[trigger] planned[i] == tree[tree.len() - 1 - i]
}

/// The claim: the head that was read is claimed at the generation directly after it, with
/// its partition, cut and tables unchanged; a claim that this process did not author is
/// fenced, and an authored one owns the log from then on.
#[verifier::rlimit(50)]
pub proof fn law_bootstrap_claims_the_head(
    phase: BootstrapPhase,
    event: BootstrapEvent,
    later: Result<BootstrapPhase, BootstrapExit>,
)
    requires
        phase.wf(),
        event@.wf(),
        phase@.awaits(event@),
        call_ensures(BootstrapPhase::advance, (phase, event), later),
    ensures
        phase is ReadHead ==> match event->SealRead_0 {
            Ok(None) => later matches Err(exit) && exit is Contradiction,
            Ok(Some(head)) => {
                &&& head.generation.value == u64::MAX ==> later is Err
                &&& later matches Ok(next) ==> next matches BootstrapPhase::PublishClaim {
                    candidate,
                    plan,
                } && {
                    let seal = candidate.encoded.seal;
                    &&& seal.generation.value == head.generation.value + 1
                    &&& seal.partition == head.partition
                    &&& seal.replay == head.replay
                    &&& seal.directory@ == head.directory@
                    &&& seal.ledger@ == head.ledger@
                    &&& oldest_first(plan@.directory, head.directory@)
                    &&& oldest_first(plan@.ledger, head.ledger@)
                }
            },
            Err(error) => later matches Err(exit) && reports(exit, error),
        },
        phase matches BootstrapPhase::PublishClaim { candidate, plan } ==> {
            let mine = candidate.encoded.seal;
            match event->ClaimPublished_0 {
                Ok(SealPublication::Authored) => match later {
                    Ok(BootstrapPhase::LoadAdmissionBase { claim, seal, .. }) => {
                        &&& claim.generation == mine.generation
                        &&& claim.owner.generation == mine.generation
                        &&& seal@ == mine@
                    },
                    Ok(BootstrapPhase::ObserveTail { takeover, occupied }) => {
                        &&& takeover.claim.generation == mine.generation
                        &&& takeover.claim.owner.generation == mine.generation
                        &&& takeover.seal@ == mine@
                        &&& occupied is None
                    },
                    Ok(_) => false,
                    Err(exit) => exit is Contradiction,
                },
                Ok(SealPublication::NoAuthority) => later matches Err(
                    BootstrapExit::Fenced { observed },
                ) && observed == mine.generation,
                Ok(SealPublication::Unresolved) => later matches Err(exit) && exit is Retryable,
                Err(error) => later matches Err(exit) && reports(exit, error),
            }
        },
        phase matches BootstrapPhase::LoadAdmissionBase { claim, seal, .. } ==> match later {
            Ok(BootstrapPhase::LoadAdmissionBase { claim: after, seal: kept, .. }) => after == claim
                && kept@ == seal@,
            Ok(BootstrapPhase::ObserveTail { takeover, occupied }) => takeover.claim == claim
                && takeover.seal@ == seal@ && occupied is None,
            Ok(_) => false,
            Err(exit) => event->TableRead_0 matches Err(error) ==> reports(exit, error),
        },
        phase is LoadAdmissionBase && event->TableRead_0 is Err ==> later is Err,
{
}

/// The fence: it goes to a coordinate after the cut, the listed tail and every occupied
/// candidate; a tail after the cut is looked at first. A durable fence starts replay of
/// the base directly after the cut, under the cut's owner; an occupied one is planned
/// again behind it.
#[verifier::rlimit(50)]
pub proof fn law_bootstrap_fences_the_log(
    phase: BootstrapPhase,
    event: BootstrapEvent,
    later: Result<BootstrapPhase, BootstrapExit>,
)
    requires
        phase.wf(),
        event@.wf(),
        phase@.awaits(event@),
        call_ensures(BootstrapPhase::advance, (phase, event), later),
    ensures
        phase matches BootstrapPhase::ObserveTail { takeover, occupied } ==> {
            let cut = match takeover.seal.replay {
                WalReplayPoint::Genesis => 0,
                WalReplayPoint::Through { batch, .. } => batch.value,
            };
            match event->WalTailObserved_0 {
                Err(error) => later matches Err(exit) && reports(exit, error),
                Ok(listed) => match later {
                    Ok(BootstrapPhase::GuardTail { takeover: kept, fence, tail }) => {
                        &&& same_takeover(takeover, kept)
                        &&& listed == Some(tail)
                        &&& cut < tail.value
                        &&& fence.batch.value == tail.value + 1
                        &&& occupied matches Some(taken) ==> taken.value < fence.batch.value
                    },
                    Ok(BootstrapPhase::PlaceFence { takeover: kept, fence, .. }) => {
                        &&& same_takeover(takeover, kept)
                        &&& number_of(listed) <= cut
                        &&& fence.batch.value == cut + 1
                        &&& occupied matches Some(taken) ==> taken.value < fence.batch.value
                    },
                    Ok(_) => false,
                    Err(exit) => !(exit is Fenced),
                },
            }
        },
        phase matches BootstrapPhase::GuardTail { takeover, fence, .. } ==> match later {
            Ok(BootstrapPhase::PlaceFence { takeover: kept, fence: same, .. }) => {
                &&& same_takeover(takeover, kept)
                &&& same == fence
                &&& event->WalRead_0 matches Ok(Some(object)) && object@.owner.generation.value
                    < takeover.claim.owner.generation.value
            },
            Ok(BootstrapPhase::RefreshAnomaly { claim, .. }) => claim == takeover.claim,
            Ok(_) => false,
            Err(exit) => !(exit is Fenced),
        },
        phase matches BootstrapPhase::PlaceFence { takeover, fence, .. } ==> match event->FenceEstablished_0 {
            Ok(WalEstablishment::Durable) => later matches Ok(
                BootstrapPhase::Replay { takeover: kept, forest, next, fence: same, owner },
            ) && {
                &&& same_takeover(takeover, kept)
                &&& same == fence
                &&& forest@ == takeover.base@
                &&& match takeover.seal.replay {
                    WalReplayPoint::Genesis => next.value == 1 && owner is None,
                    WalReplayPoint::Through { batch, owner: held } => next.value == batch.value + 1
                        && owner == Some(held),
                }
            },
            Ok(WalEstablishment::Occupied) => later matches Ok(
                BootstrapPhase::ObserveTail { takeover: kept, occupied },
            ) && same_takeover(takeover, kept) && occupied == Some(fence.batch),
            Ok(WalEstablishment::UnresolvedAbsent) => later matches Err(exit) && exit is Retryable,
            Err(error) => later matches Err(exit) && reports(exit, error),
        },
{
}

/// Replay: objects are read one coordinate after another through the fence, which must
/// leave the log to this claim; a missing or contradicting one is an anomaly. An anomaly
/// is a fenced claim exactly when a newer Seal is the head. The writer is ready exactly
/// when the head is still this claim, and starts with the replayed state durable through
/// the fence, nothing waiting and nothing in flight.
#[verifier::rlimit(50)]
pub proof fn law_bootstrap_replays_and_confirms(
    phase: BootstrapPhase,
    event: BootstrapEvent,
    later: Result<BootstrapPhase, BootstrapExit>,
)
    requires
        phase.wf(),
        event@.wf(),
        phase@.awaits(event@),
        call_ensures(BootstrapPhase::advance, (phase, event), later),
    ensures
        phase matches BootstrapPhase::Replay { takeover, forest, next, fence, owner } ==> {
            &&& event->WalRead_0 matches Ok(None) ==> later matches Ok(
                BootstrapPhase::RefreshAnomaly { claim, .. },
            ) && claim == takeover.claim
            &&& event->WalRead_0 matches Err(error) ==> if error is Contradiction {
                later matches Ok(BootstrapPhase::RefreshAnomaly { claim, .. }) && claim
                    == takeover.claim
            } else {
                later matches Err(exit) && reports(exit, error)
            }
            &&& later matches Ok(BootstrapPhase::Replay {
                takeover: kept,
                forest: state,
                next: following,
                fence: same,
                owner: after,
            }) ==> {
                &&& same_takeover(takeover, kept)
                &&& following.value == next.value + 1
                &&& next.value < fence.batch.value
                &&& same == fence
                &&& event->WalRead_0 matches Ok(Some(object)) && match object@.facts {
                    None => after == Some(object@.owner) && state@ == forest@,
                    Some(facts) => after == owner && owner == Some(object@.owner)
                        && forest@.fold_all(next, facts) == Ok::<ForestModel, FoldContradiction>(
                        state@,
                    ),
                }
            }
            &&& later matches Ok(BootstrapPhase::FinalRefresh {
                takeover: kept,
                forest: state,
                fence: same,
            }) ==> {
                &&& same_takeover(takeover, kept)
                &&& next == fence.batch
                &&& same == fence
                &&& event->WalRead_0 matches Ok(Some(object)) && object@.owner
                    == takeover.claim.owner && match object@.facts {
                    None => state@ == forest@,
                    Some(facts) => forest@.fold_all(next, facts) == Ok::<
                        ForestModel,
                        FoldContradiction,
                    >(state@),
                }
            }
            &&& later matches Ok(other) ==> other is Replay || other is FinalRefresh
                || other is RefreshAnomaly
        },
        phase matches BootstrapPhase::RefreshAnomaly { claim, detail: cause } ==> match event->HeadObserved_0 {
            Ok(Some(newest)) => later matches Err(exit) && {
                &&& exit is Fenced <==> newest.value > claim.generation.value
                &&& exit matches BootstrapExit::Fenced { observed } ==> observed == newest
                &&& !(exit is Retryable)
                &&& newest == claim.generation ==> exit->Contradiction_detail@ == cause@
            },
            Ok(None) => later matches Err(exit) && exit is Contradiction,
            Err(error) => later matches Err(exit) && reports(exit, error),
        },
        phase matches BootstrapPhase::FinalRefresh { takeover, forest, fence } ==> match event->HeadObserved_0 {
            Ok(Some(newest)) => if newest.value == takeover.claim.generation.value {
                later matches Ok(BootstrapPhase::Ready { state }) && {
                    &&& state@.claim == takeover.claim
                    &&& state@.seal == takeover.seal@
                    &&& state@.base == takeover.base@
                    &&& state@.admitted == forest@
                    &&& state@.durable == forest@
                    &&& state@.durable_batch == fence.batch
                    &&& state@.next_batch == fence.next_batch
                    &&& state@.pending.len() == 0
                    &&& state@.flight is None
                    &&& state@.checkpoint_attempt == 0
                    &&& state@.last_checkpoint_attempted_cut is None
                    &&& state@.retry_checkpoint_at is None
                    &&& state@.active_checkpoint is None
                }
            } else if newest.value > takeover.claim.generation.value {
                later matches Err(BootstrapExit::Fenced { observed }) && observed == newest
            } else {
                later matches Err(exit) && exit is Contradiction
            },
            Ok(None) => later matches Err(exit) && exit is Contradiction,
            Err(error) => later matches Err(exit) && reports(exit, error),
        },
{
}

/// A bootstrap goes on wherever it can: a head whose tables fit is claimed; a tail within
/// the bound, not behind an occupied candidate, leads to a fence; a tail of an older owner
/// lets the fence be placed; and a log object that replays leads to the next one, or at
/// the fence, where it leaves the log to this claim, to the confirmation.
#[verifier::rlimit(50)]
pub proof fn law_bootstrap_goes_on(
    phase: BootstrapPhase,
    event: BootstrapEvent,
    later: Result<BootstrapPhase, BootstrapExit>,
)
    requires
        phase.wf(),
        event@.wf(),
        phase@.awaits(event@),
        call_ensures(BootstrapPhase::advance, (phase, event), later),
    ensures
        phase is ReadHead ==> (event->SealRead_0 matches Ok(Some(head)) ==> (later is Ok
            <==> head.generation.value < u64::MAX && head@.tables().len() <= 1024
            && crate::engine::base_load::tables_bytes(head@.tables()) <= 34_359_738_368)),
        phase matches BootstrapPhase::ObserveTail { takeover, occupied } ==> (
        event->WalTailObserved_0 matches Ok(listed) ==> {
            let cut = match takeover.seal.replay {
                WalReplayPoint::Genesis => 0int,
                WalReplayPoint::Through { batch, .. } => batch.value as int,
            };
            let tail = if number_of(listed) > cut {
                number_of(listed)
            } else {
                cut
            };
            later is Ok <==> tail < u64::MAX - 1 && tail + 1 - cut <= 1024 && (occupied matches Some(
                taken,
            ) ==> taken.value <= tail)
        }),
        phase matches BootstrapPhase::GuardTail { takeover, .. } ==> match event->WalRead_0 {
            Ok(Some(object)) => if object@.owner.generation.value
                < takeover.claim.owner.generation.value {
                later matches Ok(BootstrapPhase::PlaceFence { .. })
            } else {
                later matches Ok(BootstrapPhase::RefreshAnomaly { .. })
            },
            Ok(None) => later matches Err(exit) && exit is Retryable,
            Err(TypedStoreError::Contradiction { .. }) => later matches Ok(
                BootstrapPhase::RefreshAnomaly { .. },
            ),
            Err(error) => later matches Err(exit) && reports(exit, error),
        },
        phase matches BootstrapPhase::Replay { takeover, forest, next, fence, owner } ==> (
        event->WalRead_0 matches Ok(Some(object)) ==> {
            let replays = match object@.facts {
                None => owner matches Some(current) ==> current.generation.value
                    < object@.owner.generation.value,
                Some(facts) => owner == Some(object@.owner) && forest@.fold_all(next, facts) is Ok,
            };
            if !replays {
                later matches Ok(BootstrapPhase::RefreshAnomaly { .. })
            } else if next.value < fence.batch.value {
                later matches Ok(BootstrapPhase::Replay { .. })
            } else if object@.owner == takeover.claim.owner {
                later matches Ok(BootstrapPhase::FinalRefresh { .. })
            } else {
                later matches Ok(BootstrapPhase::RefreshAnomaly { .. })
            }
        }),
{
}

/// What each phase asks of the store: its own partition, at the coordinate, table or
/// candidate that it holds.
pub proof fn law_phases_ask_for_what_they_hold(phase: BootstrapPhase, effect: BootstrapEffect<'_>)
    requires
        phase.wf(),
        call_ensures(BootstrapPhase::effect, (&phase,), effect),
    ensures
        match phase {
            BootstrapPhase::DiscoverHead => effect is ObserveHead,
            BootstrapPhase::MintPartition => effect is MintPartition,
            BootstrapPhase::ProvisionGenesis { candidate } => effect
                matches BootstrapEffect::EstablishGenesis(asked) && *asked == candidate,
            BootstrapPhase::ReadHead { generation } => effect matches BootstrapEffect::ReadSeal(
                asked,
            ) && asked == generation,
            BootstrapPhase::PublishClaim { candidate, .. } => effect
                matches BootstrapEffect::PublishAuthority(asked) && *asked == candidate,
            BootstrapPhase::LoadAdmissionBase { seal, .. } => effect
                matches BootstrapEffect::ReadTable(partition, _) && partition == seal.partition,
            BootstrapPhase::ObserveTail { takeover, .. } => effect
                matches BootstrapEffect::ObserveWalTail(partition) && partition
                == takeover.seal.partition,
            BootstrapPhase::GuardTail { takeover, tail, .. } => effect
                matches BootstrapEffect::ReadWal(partition, batch) && partition
                == takeover.seal.partition && batch == tail,
            BootstrapPhase::PlaceFence { candidate, takeover, fence } => effect
                matches BootstrapEffect::EstablishWal(asked) && *asked == candidate,
            BootstrapPhase::Replay { takeover, next, .. } => effect
                matches BootstrapEffect::ReadWal(partition, batch) && partition
                == takeover.seal.partition && batch == next,
            BootstrapPhase::RefreshAnomaly { .. } => effect is ObserveHead,
            BootstrapPhase::FinalRefresh { .. } => effect is ObserveHead,
            BootstrapPhase::Ready { .. } => effect is Complete,
        },
{
}

/// The log object that a takeover places is a FENCE of its partition and owner at the
/// planned coordinate.
pub proof fn law_takeovers_place_their_own_fence(takeover: Takeover, fence: BoundedFence)
    ensures
        ({
            let object = takeover@.fence_object(fence);
            &&& object.partition == takeover.seal.partition
            &&& object.batch == fence.batch
            &&& object.owner == takeover.claim.owner
            &&& object.facts is None
        }),
{
}

} // verus!
