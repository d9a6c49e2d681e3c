//! Bounded bootstrap from the newest Seal through an authored takeover fence.
//!
//! Bootstrap is a machine: each phase names the one store operation that it waits for,
//! and the outcome of that operation leads to the next phase or out.

use vstd::prelude::*;

use crate::domain::candidate::{
    DecodedTable, EncodedAuthoritySeal, EncodedGenesisSeal, EncodedWal, RowsModel,
};
use crate::domain::coordinate::{BatchId, OwnerToken, SealGeneration};
use crate::domain::partition::PartitionId;
use crate::domain::seal::{Seal, SealModel, TableRef, TreeVersion, WalReplayPoint};
use crate::domain::wal::{WalBody, WalModel, WalObject};
use crate::engine::base_load::{plan_bootstrap_sources, BaseLoad, BootstrapPlan, LoadModel, PlanModel};
use crate::engine::bootstrap_exit::{
    contradiction, map_typed_store_error, retryable, BootstrapExit, ExitModel,
};
use crate::engine::claim::AuthoredClaim;
use crate::engine::forest::{Forest, ForestModel};
use crate::engine::naming::{batch_text, generation_text};
use crate::engine::recovery::{
    bound_fence, fence_text, guard_fence_tail, guarded_tail, plan_fence_candidate, replan_fence,
    replay_object, replay_owner, replay_start, BoundedFence, FenceTailGate,
};
use crate::engine::store::{
    GenesisEstablishment, SealPublication, StoreErrorModel, TypedStoreError, WalEstablishment,
};
use crate::engine::writer_state::{WriterModel, WriterState};

verus! {

/// An authored claim, its Seal and the state that the Seal's tables hold.
#[derive(Debug, PartialEq, Eq)]
pub struct Takeover {
    pub claim: AuthoredClaim,
    pub seal: Seal,
    pub base: Forest,
}

/// What a takeover says.
pub struct TakeoverModel {
    pub claim: AuthoredClaim,
    pub seal: SealModel,
    pub base: ForestModel,
}

impl View for Takeover {
    type V = TakeoverModel;

    open spec fn view(&self) -> TakeoverModel {
        TakeoverModel { claim: self.claim, seal: self.seal@, base: self.base@ }
    }
}

impl TakeoverModel {
    pub open spec fn wf(self) -> bool {
        &&& self.claim.wf()
        &&& self.seal.wf()
        &&& self.claim.generation == self.seal.generation
        &&& self.base.wf()
    }

    pub open spec fn cut(self) -> Option<BatchId> {
        self.seal.replay.spec_batch()
    }

    /// The fence object of this takeover.
    pub open spec fn fence_object(self, fence: BoundedFence) -> WalModel {
        WalModel {
            partition: self.seal.partition,
            batch: fence.batch,
            owner: self.claim.owner,
            facts: None,
        }
    }
}

/// Where a bootstrap stands: each phase waits for one store operation.
#[allow(inconsistent_fields)]
#[derive(Debug, PartialEq, Eq)]
pub enum BootstrapPhase {
    /// Waits for the newest Seal generation.
    DiscoverHead,
    /// Waits for a fresh partition identity.
    MintPartition,
    /// Waits for the create of the canonical genesis.
    ProvisionGenesis { candidate: EncodedGenesisSeal },
    /// Waits for the newest Seal's body.
    ReadHead { generation: SealGeneration },
    /// Waits for the create of the claim Seal.
    PublishClaim { candidate: EncodedAuthoritySeal, plan: BootstrapPlan },
    /// Waits for the next selected table.
    LoadAdmissionBase { claim: AuthoredClaim, seal: Seal, load: BaseLoad },
    /// Waits for the newest surviving log coordinate.
    ObserveTail { takeover: Takeover, occupied: Option<BatchId> },
    /// Waits for the log object at the listed tail.
    GuardTail { takeover: Takeover, fence: BoundedFence, tail: BatchId },
    /// Waits for the create of the takeover fence.
    PlaceFence { takeover: Takeover, fence: BoundedFence, candidate: EncodedWal },
    /// Waits for the log object at the next coordinate.
    Replay {
        takeover: Takeover,
        forest: Forest,
        next: BatchId,
        fence: BoundedFence,
        owner: Option<OwnerToken>,
    },
    /// Waits for the newest Seal generation, to tell a fenced claim from a
    /// contradiction.
    RefreshAnomaly { claim: AuthoredClaim, detail: String },
    /// Waits for the newest Seal generation, to confirm the claim.
    FinalRefresh { takeover: Takeover, forest: Forest, fence: BoundedFence },
    /// Waits for nothing.
    Ready { state: WriterState },
}

/// What a phase says.
pub enum PhaseModel {
    DiscoverHead,
    MintPartition,
    ProvisionGenesis { candidate: SealModel },
    ReadHead { generation: SealGeneration },
    PublishClaim { candidate: SealModel, plan: PlanModel },
    LoadAdmissionBase { claim: AuthoredClaim, seal: SealModel, load: LoadModel },
    ObserveTail { takeover: TakeoverModel, occupied: Option<BatchId> },
    GuardTail { takeover: TakeoverModel, fence: BoundedFence, tail: BatchId },
    PlaceFence { takeover: TakeoverModel, fence: BoundedFence },
    Replay {
        takeover: TakeoverModel,
        forest: ForestModel,
        next: BatchId,
        fence: BoundedFence,
        owner: Option<OwnerToken>,
    },
    RefreshAnomaly { claim: AuthoredClaim, detail: Seq<char> },
    FinalRefresh { takeover: TakeoverModel, forest: ForestModel, fence: BoundedFence },
    Ready { state: WriterModel },
}

impl View for BootstrapPhase {
    type V = PhaseModel;

    open spec fn view(&self) -> PhaseModel {
        match *self {
            BootstrapPhase::DiscoverHead => PhaseModel::DiscoverHead,
            BootstrapPhase::MintPartition => PhaseModel::MintPartition,
            BootstrapPhase::ProvisionGenesis { candidate } => PhaseModel::ProvisionGenesis {
                candidate: candidate.encoded.seal@,
            },
            BootstrapPhase::ReadHead { generation } => PhaseModel::ReadHead { generation },
            BootstrapPhase::PublishClaim { candidate, plan } => PhaseModel::PublishClaim {
                candidate: candidate.encoded.seal@,
                plan: plan@,
            },
            BootstrapPhase::LoadAdmissionBase { claim, seal, load } =>
                PhaseModel::LoadAdmissionBase { claim, seal: seal@, load: load@ },
            BootstrapPhase::ObserveTail { takeover, occupied } => PhaseModel::ObserveTail {
                takeover: takeover@,
                occupied,
            },
            BootstrapPhase::GuardTail { takeover, fence, tail } => PhaseModel::GuardTail {
                takeover: takeover@,
                fence,
                tail,
            },
            BootstrapPhase::PlaceFence { takeover, fence, .. } => PhaseModel::PlaceFence {
                takeover: takeover@,
                fence,
            },
            BootstrapPhase::Replay { takeover, forest, next, fence, owner } => PhaseModel::Replay {
                takeover: takeover@,
                forest: forest@,
                next,
                fence,
                owner,
            },
            BootstrapPhase::RefreshAnomaly { claim, detail } => PhaseModel::RefreshAnomaly {
                claim,
                detail: detail@,
            },
            BootstrapPhase::FinalRefresh { takeover, forest, fence } => PhaseModel::FinalRefresh {
                takeover: takeover@,
                forest: forest@,
                fence,
            },
            BootstrapPhase::Ready { state } => PhaseModel::Ready { state: state@ },
        }
    }
}

impl PhaseModel {
    pub open spec fn wf(self) -> bool {
        match self {
            PhaseModel::DiscoverHead => true,
            PhaseModel::MintPartition => true,
            PhaseModel::ProvisionGenesis { candidate } => candidate.wf(),
            PhaseModel::ReadHead { generation } => generation.wf(),
            PhaseModel::PublishClaim { candidate, plan } => candidate.wf() && plan.wf(),
            PhaseModel::LoadAdmissionBase { claim, seal, load } => {
                &&& claim.wf()
                &&& seal.wf()
                &&& claim.generation == seal.generation
                &&& load.wf()
                &&& load.next() is Some
            },
            PhaseModel::ObserveTail { takeover, .. } => takeover.wf(),
            PhaseModel::GuardTail { takeover, fence, .. } => takeover.wf() && fence.bounded(
                takeover.seal.replay.covered(),
            ),
            PhaseModel::PlaceFence { takeover, fence } => takeover.wf() && fence.bounded(
                takeover.seal.replay.covered(),
            ),
            PhaseModel::Replay { takeover, forest, next, fence, .. } => {
                &&& takeover.wf()
                &&& forest.wf()
                &&& fence.bounded(takeover.seal.replay.covered())
                &&& takeover.seal.replay.covered() < next.value <= fence.batch.value
            },
            PhaseModel::RefreshAnomaly { claim, .. } => claim.wf(),
            PhaseModel::FinalRefresh { takeover, forest, fence } => {
                &&& takeover.wf()
                &&& forest.wf()
                &&& fence.bounded(takeover.seal.replay.covered())
            },
            PhaseModel::Ready { state } => state.wf(),
        }
    }
}

impl BootstrapPhase {
    /// The phase is valid, and a candidate that it holds is encoded from what the
    /// phase says.
    pub open spec fn wf(self) -> bool {
        &&& self@.wf()
        &&& match self {
            BootstrapPhase::ProvisionGenesis { candidate } => candidate.encoded.agrees(),
            BootstrapPhase::PublishClaim { candidate, .. } => candidate.encoded.agrees(),
            BootstrapPhase::PlaceFence { takeover, fence, candidate } => candidate.carries(
                takeover@.fence_object(fence),
            ),
            _ => true,
        }
    }
}

/// The outcome of the store operation that a phase waited for.
#[derive(Debug, PartialEq, Eq)]
pub enum BootstrapEvent {
    HeadObserved(Result<Option<SealGeneration>, TypedStoreError>),
    PartitionMinted(PartitionId),
    GenesisEstablished(Result<GenesisEstablishment, TypedStoreError>),
    SealRead(Result<Option<Seal>, TypedStoreError>),
    ClaimPublished(Result<SealPublication, TypedStoreError>),
    TableRead(Result<DecodedTable, TypedStoreError>),
    WalTailObserved(Result<Option<BatchId>, TypedStoreError>),
    WalRead(Result<Option<WalObject>, TypedStoreError>),
    FenceEstablished(Result<WalEstablishment, TypedStoreError>),
}

/// What an event says.
pub enum EventModel {
    HeadObserved(Result<Option<SealGeneration>, StoreErrorModel>),
    PartitionMinted(PartitionId),
    GenesisEstablished(Result<GenesisEstablishment, StoreErrorModel>),
    SealRead(Result<Option<SealModel>, StoreErrorModel>),
    ClaimPublished(Result<SealPublication, StoreErrorModel>),
    TableRead(Result<RowsModel, StoreErrorModel>),
    WalTailObserved(Result<Option<BatchId>, StoreErrorModel>),
    WalRead(Result<Option<WalModel>, StoreErrorModel>),
    FenceEstablished(Result<WalEstablishment, StoreErrorModel>),
}

impl View for BootstrapEvent {
    type V = EventModel;

    open spec fn view(&self) -> EventModel {
        match *self {
            BootstrapEvent::HeadObserved(observed) => EventModel::HeadObserved(
                crate::engine::store::outcome_model(observed),
            ),
            BootstrapEvent::PartitionMinted(partition) => EventModel::PartitionMinted(partition),
            BootstrapEvent::GenesisEstablished(established) => EventModel::GenesisEstablished(
                crate::engine::store::outcome_model(established),
            ),
            BootstrapEvent::SealRead(read) => EventModel::SealRead(
                match read {
                    Ok(Some(seal)) => Ok(Some(seal@)),
                    Ok(None) => Ok(None),
                    Err(error) => Err(error@),
                },
            ),
            BootstrapEvent::ClaimPublished(published) => EventModel::ClaimPublished(
                crate::engine::store::outcome_model(published),
            ),
            BootstrapEvent::TableRead(read) => EventModel::TableRead(
                match read {
                    Ok(rows) => Ok(rows@),
                    Err(error) => Err(error@),
                },
            ),
            BootstrapEvent::WalTailObserved(observed) => EventModel::WalTailObserved(
                crate::engine::store::outcome_model(observed),
            ),
            BootstrapEvent::WalRead(read) => EventModel::WalRead(
                crate::engine::recovery::read_model(read),
            ),
            BootstrapEvent::FenceEstablished(established) => EventModel::FenceEstablished(
                crate::engine::store::outcome_model(established),
            ),
        }
    }
}

impl EventModel {
    /// Whatever the store handed over is a valid value.
    pub open spec fn wf(self) -> bool {
        match self {
            EventModel::HeadObserved(observed) => observed matches Ok(Some(generation))
                ==> generation.wf(),
            EventModel::PartitionMinted(partition) => partition.wf(),
            EventModel::SealRead(read) => read matches Ok(Some(seal)) ==> seal.wf(),
            EventModel::TableRead(read) => read matches Ok(rows) ==> rows.wf(),
            EventModel::WalTailObserved(observed) => observed matches Ok(Some(tail)) ==> tail.wf(),
            EventModel::WalRead(read) => read matches Ok(Some(object)) ==> object.wf(),
            _ => true,
        }
    }
}

impl PhaseModel {
    /// The event is the outcome that the phase waits for.
    pub open spec fn awaits(self, event: EventModel) -> bool {
        match self {
            PhaseModel::DiscoverHead => event is HeadObserved,
            PhaseModel::MintPartition => event is PartitionMinted,
            PhaseModel::ProvisionGenesis { .. } => event is GenesisEstablished,
            PhaseModel::ReadHead { .. } => event is SealRead,
            PhaseModel::PublishClaim { .. } => event is ClaimPublished,
            PhaseModel::LoadAdmissionBase { .. } => event is TableRead,
            PhaseModel::ObserveTail { .. } => event is WalTailObserved,
            PhaseModel::GuardTail { .. } => event is WalRead,
            PhaseModel::PlaceFence { .. } => event is FenceEstablished,
            PhaseModel::Replay { .. } => event is WalRead,
            PhaseModel::RefreshAnomaly { .. } => event is HeadObserved,
            PhaseModel::FinalRefresh { .. } => event is HeadObserved,
            PhaseModel::Ready { .. } => false,
        }
    }
}

/// The canonical empty genesis of a partition.
pub open spec fn genesis_seal(partition: PartitionId) -> SealModel {
    SealModel {
        partition,
        generation: SealGeneration::spec_genesis(),
        replay: WalReplayPoint::Genesis,
        directory: Seq::empty(),
        ledger: Seq::empty(),
    }
}

/// After the newest Seal was read: its exact claim successor is to be published.
pub open spec fn spec_head_read(generation: SealGeneration, head: Option<SealModel>) -> Result<
    PhaseModel,
    ExitModel,
> {
    match head {
        None => Err(
            ExitModel::Contradiction(
                "newest Seal "@ + crate::engine::naming::generation_chars(generation)
                    + " is absent"@,
            ),
        ),
        Some(head) => if !crate::engine::base_load::sources_fit(head) {
            Err(crate::engine::base_load::source_bound())
        } else if head.generation.value == u64::MAX {
            Err(
                ExitModel::Contradiction(
                    "newest Seal cannot form an exact claim successor: Seal generation is exhausted"@,
                ),
            )
        } else {
            Ok(
                PhaseModel::PublishClaim {
                    candidate: head.claimed(),
                    plan: crate::engine::base_load::plan_of(head),
                },
            )
        },
    }
}

/// After a table was merged or none is selected: the next table is to be read, or
/// the base is complete.
pub open spec fn spec_continue_load(claim: AuthoredClaim, seal: SealModel, load: LoadModel) -> Result<
    PhaseModel,
    ExitModel,
> {
    if load.next() is Some {
        Ok(PhaseModel::LoadAdmissionBase { claim, seal, load })
    } else {
        match crate::engine::forest::merged_error(load.merged.rows) {
            Some(error) => Err(crate::engine::base_load::disagreement(error)),
            None => Ok(
                PhaseModel::ObserveTail {
                    takeover: TakeoverModel { claim, seal, base: load.merged.rows },
                    occupied: None,
                },
            ),
        }
    }
}

/// After the tail was listed: a fence directly after every survivor.
pub open spec fn spec_tail_observed(
    takeover: TakeoverModel,
    occupied: Option<BatchId>,
    listed_tail: Option<BatchId>,
) -> Result<PhaseModel, ExitModel> {
    let fence = match occupied {
        Some(occupied) => crate::engine::recovery::spec_replan_fence(
            takeover.cut(),
            occupied,
            listed_tail,
        ),
        None => match crate::engine::recovery::spec_fence_candidate(takeover.cut(), listed_tail) {
            Ok(candidate) => crate::engine::recovery::spec_bound_fence(takeover.cut(), candidate),
            Err(exit) => Err(exit),
        },
    };
    match fence {
        Err(exit) => Err(exit),
        Ok(fence) => match crate::engine::recovery::spec_guarded_tail(takeover.cut(), listed_tail) {
            Some(tail) => Ok(PhaseModel::GuardTail { takeover, fence, tail }),
            None => Ok(PhaseModel::PlaceFence { takeover, fence }),
        },
    }
}

/// After one log object was replayed: the next one, or the end of the suffix.
pub open spec fn spec_replayed(
    takeover: TakeoverModel,
    forest: ForestModel,
    next: BatchId,
    fence: BoundedFence,
    owner: Option<OwnerToken>,
) -> PhaseModel {
    if next != fence.batch {
        PhaseModel::Replay {
            takeover,
            forest,
            next: BatchId { value: (next.value + 1) as u64 },
            fence,
            owner,
        }
    } else if owner == Some(takeover.claim.owner) {
        PhaseModel::FinalRefresh { takeover, forest, fence }
    } else {
        PhaseModel::RefreshAnomaly {
            claim: takeover.claim,
            detail: "replay through FENCE "@ + crate::engine::recovery::fence_chars(fence)
                + " ended under a foreign owner"@,
        }
    }
}

/// After the log object at the next coordinate was read.
pub open spec fn spec_wal_read(
    takeover: TakeoverModel,
    forest: ForestModel,
    next: BatchId,
    fence: BoundedFence,
    owner: Option<OwnerToken>,
    read: Result<Option<WalModel>, StoreErrorModel>,
) -> Result<PhaseModel, ExitModel> {
    let claim = takeover.claim;
    match read {
        Ok(None) => Ok(
            PhaseModel::RefreshAnomaly {
                claim,
                detail: "WAL coordinate "@ + crate::engine::naming::batch_chars(next)
                    + " is absent below the FENCE"@,
            },
        ),
        Err(StoreErrorModel::Contradiction(detail)) => Ok(
            PhaseModel::RefreshAnomaly { claim, detail },
        ),
        Err(error) => Err(error.exit()),
        Ok(Some(object)) => match crate::engine::recovery::spec_replay_object(
            owner,
            forest,
            next,
            object,
        ) {
            Err(detail) => Ok(PhaseModel::RefreshAnomaly { claim, detail }),
            Ok((after, state)) => Ok(spec_replayed(takeover, state, next, fence, after)),
        },
    }
}

/// A newer Seal means that the claim was fenced; otherwise the anomaly is durable.
pub open spec fn spec_classify_anomaly(
    claim: AuthoredClaim,
    detail: Seq<char>,
    newest: Option<SealGeneration>,
) -> ExitModel {
    match newest {
        Some(observed) => if observed.value > claim.generation.value {
            ExitModel::Fenced(observed)
        } else if observed == claim.generation {
            ExitModel::Contradiction(detail)
        } else {
            ExitModel::Contradiction(
                "Seal head regressed from authored claim "@
                    + crate::engine::naming::generation_chars(claim.generation) + " to "@
                    + crate::engine::naming::generation_chars(observed)
                    + " while classifying: "@ + detail,
            )
        },
        None => ExitModel::Contradiction(
            "Seal namespace became empty while classifying replay anomaly: "@ + detail,
        ),
    }
}

/// The writer state that a completed replay recovers.
pub open spec fn recovered(
    takeover: TakeoverModel,
    forest: ForestModel,
    fence: BoundedFence,
) -> WriterModel {
    WriterModel {
        claim: takeover.claim,
        seal: takeover.seal,
        base: takeover.base,
        admitted: forest,
        durable: forest,
        durable_batch: fence.batch,
        next_batch: fence.next_batch,
        pending: Seq::empty(),
        flight: None,
        checkpoint_attempt: 0,
        last_checkpoint_attempted_cut: None,
        retry_checkpoint_at: None,
        active_checkpoint: None,
    }
}

/// The claim is confirmed by a newest Seal that is still its own.
pub open spec fn spec_final_refresh(
    takeover: TakeoverModel,
    forest: ForestModel,
    fence: BoundedFence,
    newest: Option<SealGeneration>,
) -> Result<PhaseModel, ExitModel> {
    let claimed = takeover.claim.generation;
    match newest {
        Some(observed) => if observed == claimed {
            Ok(PhaseModel::Ready { state: recovered(takeover, forest, fence) })
        } else if observed.value > claimed.value {
            Err(ExitModel::Fenced(observed))
        } else {
            Err(
                ExitModel::Contradiction(
                    "final Seal refresh regressed from "@
                        + crate::engine::naming::generation_chars(claimed) + " to "@
                        + crate::engine::naming::generation_chars(observed),
                ),
            )
        },
        None => Err(
            ExitModel::Contradiction("Seal namespace is empty during final refresh"@),
        ),
    }
}

/// Where the outcome that a phase waited for leads.
pub open spec fn spec_advance(phase: PhaseModel, event: EventModel) -> Result<
    PhaseModel,
    ExitModel,
> {
    match (phase, event) {
        (PhaseModel::DiscoverHead, EventModel::HeadObserved(observed)) => match observed {
            Ok(Some(generation)) => Ok(PhaseModel::ReadHead { generation }),
            Ok(None) => Ok(PhaseModel::MintPartition),
            Err(error) => Err(error.exit()),
        },
        (PhaseModel::MintPartition, EventModel::PartitionMinted(partition)) => Ok(
            PhaseModel::ProvisionGenesis { candidate: genesis_seal(partition) },
        ),
        (
            PhaseModel::ProvisionGenesis { .. },
            EventModel::GenesisEstablished(established),
        ) => match established {
            Ok(GenesisEstablishment::Established) => Ok(
                PhaseModel::ReadHead { generation: SealGeneration::spec_genesis() },
            ),
            Ok(GenesisEstablishment::LostRace) => Ok(PhaseModel::DiscoverHead),
            Ok(GenesisEstablishment::Unresolved) => Err(
                ExitModel::Retryable("canonical genesis create is unresolved"@),
            ),
            Err(error) => Err(error.exit()),
        },
        (PhaseModel::ReadHead { generation }, EventModel::SealRead(read)) => match read {
            Ok(head) => spec_head_read(generation, head),
            Err(error) => Err(error.exit()),
        },
        (
            PhaseModel::PublishClaim { candidate, plan },
            EventModel::ClaimPublished(published),
        ) => match published {
            Ok(SealPublication::Authored) => spec_continue_load(
                AuthoredClaim {
                    generation: candidate.generation,
                    owner: OwnerToken { generation: candidate.generation },
                },
                candidate,
                LoadModel::start(plan),
            ),
            Ok(SealPublication::NoAuthority) => Err(ExitModel::Fenced(candidate.generation)),
            Ok(SealPublication::Unresolved) => Err(
                ExitModel::Retryable(
                    "claim create at "@ + crate::engine::naming::generation_chars(
                        candidate.generation,
                    ) + " is unresolved"@,
                ),
            ),
            Err(error) => Err(error.exit()),
        },
        (
            PhaseModel::LoadAdmissionBase { claim, seal, load },
            EventModel::TableRead(read),
        ) => match read {
            Ok(rows) => match load.merge(rows) {
                Ok(load) => spec_continue_load(claim, seal, load),
                Err(exit) => Err(exit),
            },
            Err(error) => Err(error.exit()),
        },
        (
            PhaseModel::ObserveTail { takeover, occupied },
            EventModel::WalTailObserved(observed),
        ) => match observed {
            Ok(listed_tail) => spec_tail_observed(takeover, occupied, listed_tail),
            Err(error) => Err(error.exit()),
        },
        (
            PhaseModel::GuardTail { takeover, fence, tail },
            EventModel::WalRead(read),
        ) => match crate::engine::recovery::spec_guard_fence_tail(
            tail,
            read,
            takeover.claim.owner,
        ) {
            Ok(None) => Ok(PhaseModel::PlaceFence { takeover, fence }),
            Ok(Some(detail)) => Ok(
                PhaseModel::RefreshAnomaly { claim: takeover.claim, detail },
            ),
            Err(exit) => Err(exit),
        },
        (
            PhaseModel::PlaceFence { takeover, fence },
            EventModel::FenceEstablished(established),
        ) => match established {
            Ok(WalEstablishment::Durable) => Ok(
                PhaseModel::Replay {
                    takeover,
                    forest: takeover.base,
                    next: BatchId { value: (takeover.seal.replay.covered() + 1) as u64 },
                    fence,
                    owner: crate::engine::recovery::spec_replay_owner(takeover.seal.replay),
                },
            ),
            Ok(WalEstablishment::Occupied) => Ok(
                PhaseModel::ObserveTail { takeover, occupied: Some(fence.batch) },
            ),
            Ok(WalEstablishment::UnresolvedAbsent) => Err(
                ExitModel::Retryable(
                    "takeover FENCE create at "@ + crate::engine::naming::batch_chars(fence.batch)
                        + " is unresolved and absent on reconciliation"@,
                ),
            ),
            Err(error) => Err(error.exit()),
        },
        (
            PhaseModel::Replay { takeover, forest, next, fence, owner },
            EventModel::WalRead(read),
        ) => spec_wal_read(takeover, forest, next, fence, owner, read),
        (
            PhaseModel::RefreshAnomaly { claim, detail },
            EventModel::HeadObserved(observed),
        ) => match observed {
            Ok(newest) => Err(spec_classify_anomaly(claim, detail, newest)),
            Err(error) => Err(error.exit()),
        },
        (
            PhaseModel::FinalRefresh { takeover, forest, fence },
            EventModel::HeadObserved(observed),
        ) => match observed {
            Ok(newest) => spec_final_refresh(takeover, forest, fence, newest),
            Err(error) => Err(error.exit()),
        },
        _ => Ok(phase),
    }
}

/// The store operation that a phase waits for.
#[derive(Debug, Clone, Copy, PartialEq, Eq)]
pub enum BootstrapEffect<'a> {
    ObserveHead,
    MintPartition,
    EstablishGenesis(&'a EncodedGenesisSeal),
    ReadSeal(SealGeneration),
    PublishAuthority(&'a EncodedAuthoritySeal),
    ReadTable(PartitionId, TableRef),
    ObserveWalTail(PartitionId),
    ReadWal(PartitionId, BatchId),
    EstablishWal(&'a EncodedWal),
    Complete,
}

fn provision_genesis(partition: PartitionId) -> (phase: Result<BootstrapPhase, BootstrapExit>)
    requires
        partition.wf(),
    ensures
        phase matches Ok(phase) && phase.wf() && phase@ == (PhaseModel::ProvisionGenesis {
            candidate: genesis_seal(partition),
        }),
{
    let genesis = Seal {
        partition,
        generation: SealGeneration::genesis(),
        replay: WalReplayPoint::Genesis,
        directory: TreeVersion::empty(),
        ledger: TreeVersion::empty(),
    };
    proof {
        assert(genesis@ == genesis_seal(partition));
        assert(genesis@.tables() =~= Seq::empty());
    }
    match EncodedGenesisSeal::new(&genesis) {
        Ok(candidate) => Ok(BootstrapPhase::ProvisionGenesis { candidate }),
        Err(_error) => {
            assert(false);
            Err(contradiction("canonical genesis could not be encoded"))
        },
    }
}

fn after_head_read(generation: SealGeneration, head: Option<Seal>) -> (phase: Result<
    BootstrapPhase,
    BootstrapExit,
>)
    requires
        head matches Some(head) ==> head.wf(),
    ensures
        ({
            let said = match head {
                Some(head) => Some(head@),
                None => None,
            };
            match phase {
                Ok(phase) => phase.wf() && spec_head_read(generation, said) == Ok::<_, ExitModel>(
                    phase@,
                ),
                Err(exit) => spec_head_read(generation, said) == Err::<PhaseModel, _>(exit@),
            }
        }),
{
    let head = match head {
        Some(head) => head,
        None => {
            let mut detail = String::from_str("newest Seal ");
            detail.append(generation_text(generation).as_str());
            detail.append(" is absent");
            return Err(BootstrapExit::Contradiction { detail });
        },
    };
    let plan = match plan_bootstrap_sources(&head) {
        Ok(plan) => plan,
        Err(exit) => {
            return Err(exit);
        },
    };
    let candidate = match head.claim_successor() {
        Ok(candidate) => candidate,
        Err(_exhausted) => {
            return Err(
                contradiction(
                    "newest Seal cannot form an exact claim successor: Seal generation is exhausted",
                ),
            );
        },
    };
    proof {
        head@.law_claim_keeps_validity();
        crate::engine::base_load::lemma_plan_is_valid(head@);
        assert(crate::domain::seal_codec::seal_estimate(candidate@) <= 57 + 8 * 32 + 37 * 1024);
    }
    match EncodedAuthoritySeal::new(&candidate) {
        Ok(encoded) => Ok(BootstrapPhase::PublishClaim { candidate: encoded, plan }),
        Err(_error) => {
            assert(false);
            Err(contradiction("claim Seal could not be encoded"))
        },
    }
}

fn continue_load(claim: AuthoredClaim, seal: Seal, load: BaseLoad) -> (phase: Result<
    BootstrapPhase,
    BootstrapExit,
>)
    requires
        claim.wf(),
        seal.wf(),
        claim.generation == seal@.generation,
        load.wf(),
    ensures
        match phase {
            Ok(phase) => phase.wf() && spec_continue_load(claim, seal@, load@) == Ok::<
                _,
                ExitModel,
            >(phase@),
            Err(exit) => spec_continue_load(claim, seal@, load@) == Err::<PhaseModel, _>(exit@),
        },
{
    if load.next_table().is_some() {
        return Ok(BootstrapPhase::LoadAdmissionBase { claim, seal, load });
    }
    match load.finish() {
        Ok(base) => Ok(
            BootstrapPhase::ObserveTail { takeover: Takeover { claim, seal, base }, occupied: None },
        ),
        Err(exit) => Err(exit),
    }
}

fn place_fence(takeover: Takeover, fence: BoundedFence) -> (phase: BootstrapPhase)
    requires
        takeover@.wf(),
        fence.bounded(takeover@.seal.replay.covered()),
    ensures
        phase.wf(),
        phase@ == (PhaseModel::PlaceFence { takeover: takeover@, fence }),
{
    let object = WalObject::new(
        takeover.seal.partition(),
        fence.batch,
        takeover.claim.owner(),
        WalBody::Fence,
    );
    match EncodedWal::new(&object) {
        Ok(candidate) => BootstrapPhase::PlaceFence { takeover, fence, candidate },
        Err(_error) => {
            assert(false);
            BootstrapPhase::DiscoverHead
        },
    }
}

fn after_tail_observed(
    takeover: Takeover,
    occupied: Option<BatchId>,
    listed_tail: Option<BatchId>,
) -> (phase: Result<BootstrapPhase, BootstrapExit>)
    requires
        takeover@.wf(),
        listed_tail matches Some(tail) ==> tail.wf(),
    ensures
        match phase {
            Ok(phase) => phase.wf() && spec_tail_observed(takeover@, occupied, listed_tail) == Ok::<
                _,
                ExitModel,
            >(phase@),
            Err(exit) => spec_tail_observed(takeover@, occupied, listed_tail) == Err::<
                PhaseModel,
                _,
            >(exit@),
        },
{
    let cut = takeover.seal.replay().batch();
    let planned = match occupied {
        Some(occupied) => replan_fence(cut, occupied, listed_tail),
        None => match plan_fence_candidate(cut, listed_tail) {
            Ok(candidate) => bound_fence(cut, candidate),
            Err(exit) => Err(exit),
        },
    };
    let fence = match planned {
        Ok(fence) => fence,
        Err(exit) => {
            return Err(exit);
        },
    };
    match guarded_tail(cut, listed_tail) {
        Some(tail) => Ok(BootstrapPhase::GuardTail { takeover, fence, tail }),
        None => Ok(place_fence(takeover, fence)),
    }
}

fn after_wal_read(
    takeover: Takeover,
    forest: Forest,
    next: BatchId,
    fence: BoundedFence,
    owner: Option<OwnerToken>,
    read: Result<Option<WalObject>, TypedStoreError>,
) -> (phase: Result<BootstrapPhase, BootstrapExit>)
    requires
        takeover@.wf(),
        forest.wf(),
        fence.bounded(takeover@.seal.replay.covered()),
        takeover@.seal.replay.covered() < next.value <= fence.batch.value,
        crate::engine::recovery::read_model(read) matches Ok(Some(object)) ==> object.wf(),
    ensures
        ({
            let said = spec_wal_read(
                takeover@,
                forest@,
                next,
                fence,
                owner,
                crate::engine::recovery::read_model(read),
            );
            match phase {
                Ok(phase) => phase.wf() && said == Ok::<_, ExitModel>(phase@),
                Err(exit) => said == Err::<PhaseModel, _>(exit@),
            }
        }),
{
    let claim = takeover.claim;
    let object = match read {
        Ok(Some(object)) => object,
        Ok(None) => {
            let mut detail = String::from_str("WAL coordinate ");
            detail.append(batch_text(next).as_str());
            detail.append(" is absent below the FENCE");
            return Ok(BootstrapPhase::RefreshAnomaly { claim, detail });
        },
        Err(TypedStoreError::Contradiction { detail }) => {
            return Ok(BootstrapPhase::RefreshAnomaly { claim, detail });
        },
        Err(error) => {
            return Err(map_typed_store_error(error));
        },
    };
    let (owner, forest) = match replay_object(owner, forest, next, &object) {
        Ok(replayed) => replayed,
        Err(detail) => {
            return Ok(BootstrapPhase::RefreshAnomaly { claim, detail });
        },
    };
    if next != fence.batch {
        return Ok(
            BootstrapPhase::Replay {
                takeover,
                forest,
                next: BatchId { value: next.value + 1 },
                fence,
                owner,
            },
        );
    }
    let own = match owner {
        Some(current) => current == claim.owner,
        None => false,
    };
    if own {
        return Ok(BootstrapPhase::FinalRefresh { takeover, forest, fence });
    }
    let mut detail = String::from_str("replay through FENCE ");
    detail.append(fence_text(fence).as_str());
    detail.append(" ended under a foreign owner");
    Ok(BootstrapPhase::RefreshAnomaly { claim, detail })
}

fn classify_anomaly(claim: AuthoredClaim, detail: String, newest: Option<SealGeneration>) -> (exit:
    BootstrapExit)
    ensures
        exit@ == spec_classify_anomaly(claim, detail@, newest),
{
    match newest {
        Some(observed) => if observed.value > claim.generation.value {
            BootstrapExit::Fenced { observed }
        } else if observed == claim.generation {
            BootstrapExit::Contradiction { detail }
        } else {
            let mut regressed = String::from_str("Seal head regressed from authored claim ");
            regressed.append(generation_text(claim.generation).as_str());
            regressed.append(" to ");
            regressed.append(generation_text(observed).as_str());
            regressed.append(" while classifying: ");
            regressed.append(detail.as_str());
            BootstrapExit::Contradiction { detail: regressed }
        },
        None => {
            let mut emptied = String::from_str(
                "Seal namespace became empty while classifying replay anomaly: ",
            );
            emptied.append(detail.as_str());
            BootstrapExit::Contradiction { detail: emptied }
        },
    }
}

fn after_final_refresh(
    takeover: Takeover,
    forest: Forest,
    fence: BoundedFence,
    newest: Option<SealGeneration>,
) -> (phase: Result<BootstrapPhase, BootstrapExit>)
    requires
        takeover@.wf(),
        forest.wf(),
        fence.bounded(takeover@.seal.replay.covered()),
    ensures
        match phase {
            Ok(phase) => phase.wf() && spec_final_refresh(takeover@, forest@, fence, newest) == Ok::<
                _,
                ExitModel,
            >(phase@),
            Err(exit) => spec_final_refresh(takeover@, forest@, fence, newest) == Err::<
                PhaseModel,
                _,
            >(exit@),
        },
{
    let claimed = takeover.claim.generation;
    match newest {
        Some(observed) => if observed == claimed {
            let state = WriterState::new(
                takeover.claim,
                takeover.seal,
                takeover.base,
                forest,
                fence.batch,
                fence.next_batch,
            );
            Ok(BootstrapPhase::Ready { state })
        } else if observed.value > claimed.value {
            Err(BootstrapExit::Fenced { observed })
        } else {
            let mut detail = String::from_str("final Seal refresh regressed from ");
            detail.append(generation_text(claimed).as_str());
            detail.append(" to ");
            detail.append(generation_text(observed).as_str());
            Err(BootstrapExit::Contradiction { detail })
        },
        None => Err(contradiction("Seal namespace is empty during final refresh")),
    }
}

impl BootstrapPhase {
    /// A bootstrap starts with looking for the newest Seal.
    pub fn start() -> (phase: Self)
        ensures
            phase.wf(),
            phase@ == PhaseModel::DiscoverHead,
    {
        BootstrapPhase::DiscoverHead
    }

    /// The store operation that this phase waits for.
    pub fn effect(&self) -> (effect: BootstrapEffect<'_>)
        requires
            self.wf(),
        ensures
            match *self {
                BootstrapPhase::DiscoverHead => effect == BootstrapEffect::ObserveHead,
                BootstrapPhase::MintPartition => effect == BootstrapEffect::MintPartition,
                BootstrapPhase::ProvisionGenesis { candidate } => effect
                    == BootstrapEffect::EstablishGenesis(&candidate),
                BootstrapPhase::ReadHead { generation } => effect == BootstrapEffect::ReadSeal(
                    generation,
                ),
                BootstrapPhase::PublishClaim { candidate, .. } => effect
                    == BootstrapEffect::PublishAuthority(&candidate),
                BootstrapPhase::LoadAdmissionBase { seal, load, .. } => load@.next() matches Some(
                    table,
                ) && effect == BootstrapEffect::ReadTable(seal@.partition, table),
                BootstrapPhase::ObserveTail { takeover, .. } => effect
                    == BootstrapEffect::ObserveWalTail(takeover@.seal.partition),
                BootstrapPhase::GuardTail { takeover, tail, .. } => effect
                    == BootstrapEffect::ReadWal(takeover@.seal.partition, tail),
                BootstrapPhase::PlaceFence { candidate, .. } => effect
                    == BootstrapEffect::EstablishWal(&candidate),
                BootstrapPhase::Replay { takeover, next, .. } => effect == BootstrapEffect::ReadWal(
                    takeover@.seal.partition,
                    next,
                ),
                BootstrapPhase::RefreshAnomaly { .. } => effect == BootstrapEffect::ObserveHead,
                BootstrapPhase::FinalRefresh { .. } => effect == BootstrapEffect::ObserveHead,
                BootstrapPhase::Ready { .. } => effect == BootstrapEffect::Complete,
            },
    {
        match self {
            BootstrapPhase::DiscoverHead => BootstrapEffect::ObserveHead,
            BootstrapPhase::MintPartition => BootstrapEffect::MintPartition,
            BootstrapPhase::ProvisionGenesis { candidate } => BootstrapEffect::EstablishGenesis(
                candidate,
            ),
            BootstrapPhase::ReadHead { generation } => BootstrapEffect::ReadSeal(*generation),
            BootstrapPhase::PublishClaim { candidate, plan: _ } => BootstrapEffect::PublishAuthority(
                candidate,
            ),
            BootstrapPhase::LoadAdmissionBase { claim: _, seal, load } => match load.next_table() {
                Some(table) => BootstrapEffect::ReadTable(seal.partition(), table),
                None => {
                    assert(false);
                    BootstrapEffect::Complete
                },
            },
            BootstrapPhase::ObserveTail { takeover, occupied: _ } =>
                BootstrapEffect::ObserveWalTail(takeover.seal.partition()),
            BootstrapPhase::GuardTail { takeover, fence: _, tail } => BootstrapEffect::ReadWal(
                takeover.seal.partition(),
                *tail,
            ),
            BootstrapPhase::PlaceFence { takeover: _, fence: _, candidate } =>
                BootstrapEffect::EstablishWal(candidate),
            BootstrapPhase::Replay { takeover, forest: _, next, fence: _, owner: _ } =>
                BootstrapEffect::ReadWal(takeover.seal.partition(), *next),
            BootstrapPhase::RefreshAnomaly { .. } => BootstrapEffect::ObserveHead,
            BootstrapPhase::FinalRefresh { .. } => BootstrapEffect::ObserveHead,
            BootstrapPhase::Ready { .. } => BootstrapEffect::Complete,
        }
    }

    /// Goes on with the outcome of the operation that this phase waited for.
    pub fn advance(self, event: BootstrapEvent) -> (phase: Result<Self, BootstrapExit>)
        requires
            self.wf(),
            event@.wf(),
            self@.awaits(event@),
        ensures
            match phase {
                Ok(phase) => phase.wf() && spec_advance(self@, event@) == Ok::<_, ExitModel>(phase@),
                Err(exit) => spec_advance(self@, event@) == Err::<PhaseModel, _>(exit@),
            },
    {
        match (self, event) {
            (BootstrapPhase::DiscoverHead, BootstrapEvent::HeadObserved(observed)) => match observed {
                Ok(Some(generation)) => Ok(BootstrapPhase::ReadHead { generation }),
                Ok(None) => Ok(BootstrapPhase::MintPartition),
                Err(error) => Err(map_typed_store_error(error)),
            },
            (BootstrapPhase::MintPartition, BootstrapEvent::PartitionMinted(partition)) =>
                provision_genesis(partition),
            (
                BootstrapPhase::ProvisionGenesis { candidate: _ },
                BootstrapEvent::GenesisEstablished(established),
            ) => match established {
                Ok(GenesisEstablishment::Established) => Ok(
                    BootstrapPhase::ReadHead { generation: SealGeneration::genesis() },
                ),
                Ok(GenesisEstablishment::LostRace) => Ok(BootstrapPhase::DiscoverHead),
                Ok(GenesisEstablishment::Unresolved) => Err(
                    retryable("canonical genesis create is unresolved"),
                ),
                Err(error) => Err(map_typed_store_error(error)),
            },
            (BootstrapPhase::ReadHead { generation }, BootstrapEvent::SealRead(read)) => match read {
                Ok(head) => after_head_read(generation, head),
                Err(error) => Err(map_typed_store_error(error)),
            },
            (
                BootstrapPhase::PublishClaim { candidate, plan },
                BootstrapEvent::ClaimPublished(published),
            ) => match published {
                Ok(SealPublication::Authored) => continue_load(
                    AuthoredClaim::new(candidate.generation()),
                    candidate.encoded.seal,
                    BaseLoad::new(plan),
                ),
                Ok(SealPublication::NoAuthority) => Err(
                    BootstrapExit::Fenced { observed: candidate.generation() },
                ),
                Ok(SealPublication::Unresolved) => {
                    let mut detail = String::from_str("claim create at ");
                    detail.append(generation_text(candidate.generation()).as_str());
                    detail.append(" is unresolved");
                    Err(BootstrapExit::Retryable { detail })
                },
                Err(error) => Err(map_typed_store_error(error)),
            },
            (
                BootstrapPhase::LoadAdmissionBase { claim, seal, load },
                BootstrapEvent::TableRead(read),
            ) => match read {
                Ok(rows) => {
                    let mut load = load;
                    match load.merge(&rows) {
                        Ok(()) => continue_load(claim, seal, load),
                        Err(exit) => Err(exit),
                    }
                },
                Err(error) => Err(map_typed_store_error(error)),
            },
            (
                BootstrapPhase::ObserveTail { takeover, occupied },
                BootstrapEvent::WalTailObserved(observed),
            ) => match observed {
                Ok(listed_tail) => after_tail_observed(takeover, occupied, listed_tail),
                Err(error) => Err(map_typed_store_error(error)),
            },
            (
                BootstrapPhase::GuardTail { takeover, fence, tail },
                BootstrapEvent::WalRead(read),
            ) => match guard_fence_tail(tail, read, takeover.claim.owner) {
                Ok(FenceTailGate::Clear) => Ok(place_fence(takeover, fence)),
                Ok(FenceTailGate::RefreshAnomaly { detail }) => Ok(
                    BootstrapPhase::RefreshAnomaly { claim: takeover.claim, detail },
                ),
                Err(exit) => Err(exit),
            },
            (
                BootstrapPhase::PlaceFence { takeover, fence, candidate: _ },
                BootstrapEvent::FenceEstablished(established),
            ) => match established {
                Ok(WalEstablishment::Durable) => {
                    let replay = takeover.seal.replay();
                    let next = match replay_start(replay) {
                        Ok(next) => next,
                        Err(exit) => {
                            assert(false);
                            return Err(exit);
                        },
                    };
                    let forest = takeover.base.clone();
                    Ok(
                        BootstrapPhase::Replay {
                            takeover,
                            forest,
                            next,
                            fence,
                            owner: replay_owner(replay),
                        },
                    )
                },
                Ok(WalEstablishment::Occupied) => Ok(
                    BootstrapPhase::ObserveTail { takeover, occupied: Some(fence.batch) },
                ),
                Ok(WalEstablishment::UnresolvedAbsent) => {
                    let mut detail = String::from_str("takeover FENCE create at ");
                    detail.append(batch_text(fence.batch).as_str());
                    detail.append(" is unresolved and absent on reconciliation");
                    Err(BootstrapExit::Retryable { detail })
                },
                Err(error) => Err(map_typed_store_error(error)),
            },
            (
                BootstrapPhase::Replay { takeover, forest, next, fence, owner },
                BootstrapEvent::WalRead(read),
            ) => after_wal_read(takeover, forest, next, fence, owner, read),
            (
                BootstrapPhase::RefreshAnomaly { claim, detail },
                BootstrapEvent::HeadObserved(observed),
            ) => match observed {
                Ok(newest) => Err(classify_anomaly(claim, detail, newest)),
                Err(error) => Err(map_typed_store_error(error)),
            },
            (
                BootstrapPhase::FinalRefresh { takeover, forest, fence },
                BootstrapEvent::HeadObserved(observed),
            ) => match observed {
                Ok(newest) => after_final_refresh(takeover, forest, fence, newest),
                Err(error) => Err(map_typed_store_error(error)),
            },
            _ => {
                assert(false);
                Err(contradiction("a bootstrap phase met an outcome that it did not wait for"))
            },
        }
    }
}

/// A bootstrap becomes ready only when the newest Seal is still its own claim, with
/// the replayed state durable through the takeover fence.
pub proof fn law_ready_confirms_the_claim(phase: PhaseModel, event: EventModel)
    requires
        phase.wf(),
        phase.awaits(event),
    ensures
        spec_advance(phase, event) matches Ok(PhaseModel::Ready { state }) ==> {
            &&& phase matches PhaseModel::FinalRefresh { takeover, forest, fence }
            &&& event == EventModel::HeadObserved(Ok(Some(takeover.claim.generation)))
            &&& state == recovered(takeover, forest, fence)
            &&& state.wf()
            &&& state.is_quiescent()
        },
{
    if let Ok(PhaseModel::Ready { state }) = spec_advance(phase, event) {
        if let PhaseModel::FinalRefresh { takeover, forest, fence } = phase {
            assert(crate::engine::writer_state::barrier_facts(state.pending).len() == 0);
        }
    }
}

/// Replay looks at every coordinate from the cut through the fence, in order: it
/// starts directly after the cut, goes on by one, and ends at the fence.
pub proof fn law_replay_is_gapless(phase: PhaseModel, event: EventModel)
    requires
        phase.wf(),
        phase.awaits(event),
    ensures
        spec_advance(phase, event) matches Ok(PhaseModel::Replay { takeover, next, fence, .. })
            ==> match phase {
            PhaseModel::Replay { next: before, fence: same, .. } => next.value == before.value + 1
                && fence == same,
            _ => phase is PlaceFence && next.value == takeover.seal.replay.covered() + 1,
        },
        spec_advance(phase, event) matches Ok(PhaseModel::FinalRefresh { fence, .. }) ==> {
            phase matches PhaseModel::Replay { next, .. } && next == fence.batch
        },
{
}

/// An acknowledged write survives a reopen: the bytes of a RUN that the writer made
/// durable read back as that RUN, and replaying it under its owner reconstructs
/// exactly the state that became durable.
///
/// The premise on `bytes` is what taking the flight ensures of the RUN's bytes.
pub proof fn law_acknowledged_writes_survive(
    state: WriterModel,
    bytes: Seq<u8>,
    accepts: spec_fn(crate::domain::protocol::ProtocolText) -> bool,
)
    requires
        state.wf(),
        state.take_flight().1 is Run,
        crate::domain::wal_codec::facts_accepted(
            crate::engine::writer_state::barrier_facts(state.pending),
            accepts,
        ),
        bytes.len() <= crate::domain::bounds::WAL_ENCODED_BYTES_MAX,
        crate::domain::wal_codec::stored_wal_value(bytes) == Some(
            crate::domain::wal_codec::wal_archive(state.pending_run()),
        ),
    ensures
        ({
            let run = state.pending_run();
            let landed = state.take_flight().0.record_durable().durable;
            &&& crate::domain::wal_codec::spec_decode_wal(run.identity(), bytes, accepts) == Ok::<
                WalModel,
                crate::domain::archive::DecodeError,
            >(run)
            &&& crate::engine::recovery::spec_replay_object(
                Some(state.claim.owner),
                state.durable,
                run.batch,
                run,
            ) == Ok::<_, Seq<char>>((Some(state.claim.owner), landed))
        }),
{
    let run = state.pending_run();
    let facts = crate::engine::writer_state::barrier_facts(state.pending);
    crate::engine::writer_state::lemma_barrier_len(state.pending);
    assert forall|i: int| 0 <= i < facts.len() implies (#[trigger] facts[i]).wf() by {
        crate::engine::writer_state::lemma_barrier_facts_fit(state.pending, i);
    }
    assert(run.wf());
    crate::domain::wal_codec::law_wal_round_trips(run, bytes, accepts);
    state.law_durability_lands_the_admitted_facts();
}

} // verus!
