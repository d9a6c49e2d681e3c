//! Takeover fence planning and WAL replay.

use vstd::prelude::*;

use crate::domain::bounds::WAL_SUFFIX_COORDINATES_MAX_V2;
use crate::domain::coordinate::{BatchId, OwnerToken};
use crate::domain::seal::WalReplayPoint;
use crate::domain::text::number_text;
use crate::domain::wal::{FactModel, OperationFact, WalModel, WalObject};
use crate::engine::bootstrap_exit::{
    contradiction, map_typed_store_error, retryable, BootstrapExit, ExitModel,
};
use crate::engine::forest::{FoldContradiction, Forest, ForestModel};
use crate::engine::naming::{batch_text, owner_text};
use crate::engine::store::{StoreErrorModel, TypedStoreError};

verus! {

/// A takeover fence whose suffix is inside the replay bound, and the coordinate
/// directly after it.
#[derive(Debug, Clone, Copy, PartialEq, Eq, Structural)]
pub struct BoundedFence {
    pub batch: BatchId,
    pub next_batch: BatchId,
}

impl BoundedFence {
    /// The fence is after the cut, inside the bound, and has a successor.
    pub open spec fn bounded(self, cut: u64) -> bool {
        &&& cut < self.batch.value
        &&& self.batch.value - cut <= WAL_SUFFIX_COORDINATES_MAX_V2
        &&& self.next_batch.value == self.batch.value + 1
    }
}

/// `BoundedFence { batch: BatchId(5), next_batch: BatchId(6) }`.
pub open spec fn fence_chars(fence: BoundedFence) -> Seq<char> {
    "BoundedFence { batch: "@ + crate::engine::naming::batch_chars(fence.batch)
        + ", next_batch: "@ + crate::engine::naming::batch_chars(fence.next_batch) + " }"@
}

pub fn fence_text(fence: BoundedFence) -> (text: String)
    ensures
        text@ == fence_chars(fence),
{
    let mut text = String::from_str("BoundedFence { batch: ");
    text.append(batch_text(fence.batch).as_str());
    text.append(", next_batch: ");
    text.append(batch_text(fence.next_batch).as_str());
    text.append(" }");
    text
}

/// The greater of the cut and the surviving tail; neither is coordinate zero.
pub open spec fn log_tail(cut: Option<BatchId>, listed_tail: Option<BatchId>) -> u64 {
    let cut = crate::engine::admission::cut_value(cut);
    let tail = crate::engine::admission::cut_value(listed_tail);
    if cut < tail {
        tail
    } else {
        cut
    }
}

/// The coordinate directly after the greater of the cut and the surviving tail.
pub open spec fn spec_fence_candidate(cut: Option<BatchId>, listed_tail: Option<BatchId>) -> Result<
    BatchId,
    ExitModel,
> {
    let tail = log_tail(cut, listed_tail);
    if tail == u64::MAX {
        Err(ExitModel::Retryable("WAL coordinate space is exhausted before takeover"@))
    } else {
        Ok(BatchId { value: (tail + 1) as u64 })
    }
}

/// Plans the takeover fence directly after everything that survives.
pub fn plan_fence_candidate(cut: Option<BatchId>, listed_tail: Option<BatchId>) -> (candidate: Result<
    BatchId,
    BootstrapExit,
>)
    ensures
        match candidate {
            Ok(candidate) => spec_fence_candidate(cut, listed_tail) == Ok::<_, ExitModel>(candidate)
                && candidate.wf(),
            Err(exit) => spec_fence_candidate(cut, listed_tail) == Err::<BatchId, _>(exit@),
        },
{
    let cut: u64 = match cut {
        Some(cut) => cut.value,
        None => 0,
    };
    let tail: u64 = match listed_tail {
        Some(tail) => if cut < tail.value {
            tail.value
        } else {
            cut
        },
        None => cut,
    };
    match (BatchId { value: tail }).successor() {
        Ok(candidate) => Ok(candidate),
        Err(_exhausted) => Err(retryable("WAL coordinate space is exhausted before takeover")),
    }
}

/// The fence with its successor, when its suffix is inside the replay bound.
pub open spec fn spec_bound_fence(cut: Option<BatchId>, fence: BatchId) -> Result<
    BoundedFence,
    ExitModel,
> {
    let covered = crate::engine::admission::cut_value(cut);
    if fence.value == u64::MAX {
        Err(
            ExitModel::Retryable(
                "WAL coordinate space has no RUN coordinate after the takeover FENCE"@,
            ),
        )
    } else if fence.value <= covered {
        Err(
            ExitModel::Contradiction(
                "takeover FENCE is not strictly after the Seal replay cut"@,
            ),
        )
    } else if fence.value - covered > WAL_SUFFIX_COORDINATES_MAX_V2 {
        Err(
            ExitModel::Retryable(
                "WAL suffix through takeover FENCE spans "@ + crate::domain::text::number_chars(
                    (fence.value - covered) as nat,
                ) + " coordinates; the bound is 1024"@,
            ),
        )
    } else {
        Ok(
            BoundedFence { batch: fence, next_batch: BatchId { value: (fence.value + 1) as u64 } },
        )
    }
}

/// Holds the suffix through the fence to the replay bound.
pub fn bound_fence(cut: Option<BatchId>, fence: BatchId) -> (bounded: Result<
    BoundedFence,
    BootstrapExit,
>)
    ensures
        match bounded {
            Ok(bounded) => {
                &&& spec_bound_fence(cut, fence) == Ok::<_, ExitModel>(bounded)
                &&& bounded.bounded(crate::engine::admission::cut_value(cut))
            },
            Err(exit) => spec_bound_fence(cut, fence) == Err::<BoundedFence, _>(exit@),
        },
{
    let next_batch = match fence.successor() {
        Ok(next_batch) => next_batch,
        Err(_exhausted) => {
            return Err(
                retryable("WAL coordinate space has no RUN coordinate after the takeover FENCE"),
            );
        },
    };
    let cut: u64 = match cut {
        Some(cut) => cut.value,
        None => 0,
    };
    if fence.value <= cut {
        return Err(contradiction("takeover FENCE is not strictly after the Seal replay cut"));
    }
    let span: u64 = fence.value - cut;
    if span > WAL_SUFFIX_COORDINATES_MAX_V2 {
        let mut detail = String::from_str("WAL suffix through takeover FENCE spans ");
        detail.append(number_text(span).as_str());
        detail.append(" coordinates; the bound is 1024");
        return Err(BootstrapExit::Retryable { detail });
    }
    Ok(BoundedFence { batch: fence, next_batch })
}

/// The fence after an occupied candidate: the listing must have moved past it.
pub open spec fn spec_replan_fence(
    cut: Option<BatchId>,
    occupied: BatchId,
    listed_tail: Option<BatchId>,
) -> Result<BoundedFence, ExitModel> {
    match spec_fence_candidate(cut, listed_tail) {
        Err(exit) => Err(exit),
        Ok(candidate) => if candidate.value <= occupied.value {
            Err(
                ExitModel::Contradiction(
                    "WAL list did not advance past occupied FENCE candidate "@
                        + crate::engine::naming::batch_chars(occupied),
                ),
            )
        } else {
            spec_bound_fence(cut, candidate)
        },
    }
}

/// Plans again after an occupied candidate.
pub fn replan_fence(cut: Option<BatchId>, occupied: BatchId, listed_tail: Option<BatchId>) -> (
    bounded: Result<BoundedFence, BootstrapExit>)
    ensures
        match bounded {
            Ok(bounded) => {
                &&& spec_replan_fence(cut, occupied, listed_tail) == Ok::<_, ExitModel>(bounded)
                &&& bounded.bounded(crate::engine::admission::cut_value(cut))
            },
            Err(exit) => spec_replan_fence(cut, occupied, listed_tail) == Err::<BoundedFence, _>(
                exit@,
            ),
        },
{
    let candidate = match plan_fence_candidate(cut, listed_tail) {
        Ok(candidate) => candidate,
        Err(exit) => {
            return Err(exit);
        },
    };
    if candidate.value <= occupied.value {
        let mut detail = String::from_str("WAL list did not advance past occupied FENCE candidate ");
        detail.append(batch_text(occupied).as_str());
        return Err(BootstrapExit::Contradiction { detail });
    }
    bound_fence(cut, candidate)
}

/// A planned fence never lands on anything that survives: it is after the cut and
/// after the listed tail, and its whole suffix can be replayed.
pub proof fn law_fence_is_after_every_survivor(cut: Option<BatchId>, listed_tail: Option<BatchId>)
    ensures
        spec_fence_candidate(cut, listed_tail) matches Ok(candidate) ==> {
            &&& crate::engine::admission::cut_value(cut) < candidate.value
            &&& crate::engine::admission::cut_value(listed_tail) < candidate.value
            &&& spec_bound_fence(cut, candidate) matches Ok(bounded) ==> {
                &&& bounded.batch == candidate
                &&& bounded.bounded(crate::engine::admission::cut_value(cut))
            }
        },
{
}

/// The owner under which replay starts; genesis has none.
pub open spec fn spec_replay_owner(replay: WalReplayPoint) -> Option<OwnerToken> {
    match replay {
        WalReplayPoint::Genesis => None,
        WalReplayPoint::Through { owner, .. } => Some(owner),
    }
}

pub fn replay_owner(replay: WalReplayPoint) -> (owner: Option<OwnerToken>)
    ensures
        owner == spec_replay_owner(replay),
{
    match replay {
        WalReplayPoint::Genesis => None,
        WalReplayPoint::Through { batch: _, owner } => Some(owner),
    }
}

/// The first coordinate to replay.
pub open spec fn spec_replay_start(replay: WalReplayPoint) -> Result<BatchId, ExitModel> {
    if replay.covered() == u64::MAX {
        Err(ExitModel::Retryable("Seal replay cut occupies the final WAL coordinate"@))
    } else {
        Ok(BatchId { value: (replay.covered() + 1) as u64 })
    }
}

pub fn replay_start(replay: WalReplayPoint) -> (start: Result<BatchId, BootstrapExit>)
    ensures
        match start {
            Ok(start) => spec_replay_start(replay) == Ok::<_, ExitModel>(start) && start.wf(),
            Err(exit) => spec_replay_start(replay) == Err::<BatchId, _>(exit@),
        },
{
    match replay {
        WalReplayPoint::Genesis => Ok(BatchId { value: 1 }),
        WalReplayPoint::Through { batch, owner: _ } => match batch.successor() {
            Ok(start) => Ok(start),
            Err(_exhausted) => Err(retryable("Seal replay cut occupies the final WAL coordinate")),
        },
    }
}

/// A fact of a RUN that cannot join the recovered state.
pub open spec fn contradicted_run(batch: BatchId, contradiction: FoldContradiction) -> Seq<char> {
    "fact in WAL RUN "@ + crate::engine::naming::batch_chars(batch)
        + " contradicts recovered state: "@ + contradiction.spec_message()
}

/// `after` has the facts before the first contradicting one folded in, and no other.
pub open spec fn folded_until(
    before: ForestModel,
    batch: BatchId,
    facts: Seq<FactModel>,
    after: ForestModel,
) -> bool {
    exists|count: int|
        0 <= count < facts.len() && #[trigger] before.fold_all(batch, facts.take(count)) == Ok::<
            ForestModel,
            FoldContradiction,
        >(after) && after.fold(batch, facts[count]) is Err
}

/// Folds the facts of one RUN, in order; the first that contradicts ends replay.
pub fn fold_replay_facts(forest: &mut Forest, batch: BatchId, facts: &[OperationFact]) -> (anomaly:
    Option<String>)
    requires
        old(forest).wf(),
        batch.wf(),
        forall|i: int| 0 <= i < facts@.len() ==> (#[trigger] facts@[i])@.wf(),
    ensures
        final(forest).wf(),
        match anomaly {
            None => old(forest)@.fold_all(batch, crate::domain::wal::facts_model(facts@)) == Ok::<
                ForestModel,
                FoldContradiction,
            >(final(forest)@),
            Some(detail) => old(forest)@.fold_all(
                batch,
                crate::domain::wal::facts_model(facts@),
            ) matches Err(contradiction) && detail@ == contradicted_run(batch, contradiction)
                && folded_until(
                old(forest)@,
                batch,
                crate::domain::wal::facts_model(facts@),
                final(forest)@,
            ),
        },
{
    let ghost before = forest@;
    let ghost said = crate::domain::wal::facts_model(facts@);
    let mut at: usize = 0;
    assert(said.take(0) =~= Seq::empty());
    while at < facts.len()
        invariant
            at <= facts.len(),
            before == old(forest)@,
            said == crate::domain::wal::facts_model(facts@),
            batch.wf(),
            forest.wf(),
            forall|i: int| 0 <= i < facts@.len() ==> (#[trigger] facts@[i])@.wf(),
            before.fold_all(batch, said.take(at as int)) == Ok::<ForestModel, FoldContradiction>(
                forest@,
            ),
        decreases facts.len() - at,
    {
        proof {
            let longer = said.take(at + 1);
            assert(longer.drop_last() =~= said.take(at as int));
            assert(longer.last() == facts@[at as int]@);
        }
        match forest.strict_fold(batch, &facts[at]) {
            Ok(_applied) => {},
            Err(found) => {
                proof {
                    lemma_fold_stops(before, batch, said, at + 1);
                    assert(forest@.fold(batch, said[at as int]) is Err);
                    assert(folded_until(before, batch, said, forest@));
                }
                let mut detail = String::from_str("fact in WAL RUN ");
                detail.append(batch_text(batch).as_str());
                detail.append(" contradicts recovered state: ");
                detail.append(found.to_string().as_str());
                return Some(detail);
            },
        }
        at += 1;
    }
    assert(said.take(at as int) =~= said);
    None
}

/// A contradiction in a stretch of facts is the contradiction of all of them.
proof fn lemma_fold_stops(forest: ForestModel, batch: BatchId, facts: Seq<FactModel>, count: int)
    requires
        0 <= count <= facts.len(),
        forest.fold_all(batch, facts.take(count)) is Err,
    ensures
        forest.fold_all(batch, facts) == forest.fold_all(batch, facts.take(count)),
    decreases facts.len() - count,
{
    if count < facts.len() {
        assert(facts.take(count + 1).drop_last() =~= facts.take(count));
        lemma_fold_stops(forest, batch, facts, count + 1);
    } else {
        assert(facts.take(count) =~= facts);
    }
}

/// What replaying one log object gives: the owner and forest after it, or the
/// anomaly that it is. Owners strictly increase at fences and runs are their
/// owner's.
pub open spec fn spec_replay_object(
    owner: Option<OwnerToken>,
    forest: ForestModel,
    next: BatchId,
    object: WalModel,
) -> Result<(Option<OwnerToken>, ForestModel), Seq<char>> {
    match object.facts {
        None => if owner matches Some(current) && object.owner.generation.value
            <= current.generation.value {
            Err(
                "FENCE at "@ + crate::engine::naming::batch_chars(next)
                    + " does not strictly increase the replay owner"@,
            )
        } else {
            Ok((Some(object.owner), forest))
        },
        Some(facts) => if owner == Some(object.owner) {
            match forest.fold_all(next, facts) {
                Ok(after) => Ok((owner, after)),
                Err(contradiction) => Err(contradicted_run(next, contradiction)),
            }
        } else {
            Err(
                "RUN at "@ + crate::engine::naming::batch_chars(next)
                    + " does not match the replay owner"@,
            )
        },
    }
}

/// Replays one log object.
pub fn replay_object(
    owner: Option<OwnerToken>,
    forest: Forest,
    next: BatchId,
    object: &WalObject,
) -> (replayed: Result<(Option<OwnerToken>, Forest), String>)
    requires
        forest.wf(),
        next.wf(),
        object@.wf(),
    ensures
        match replayed {
            Ok((after, state)) => {
                &&& spec_replay_object(owner, forest@, next, object@) == Ok::<_, Seq<char>>(
                    (after, state@),
                )
                &&& state.wf()
            },
            Err(anomaly) => spec_replay_object(owner, forest@, next, object@) == Err::<
                (Option<OwnerToken>, ForestModel),
                _,
            >(anomaly@),
        },
{
    match object.facts() {
        None => {
            if let Some(current) = owner {
                if object.owner().generation.value <= current.generation.value {
                    let mut detail = String::from_str("FENCE at ");
                    detail.append(batch_text(next).as_str());
                    detail.append(" does not strictly increase the replay owner");
                    return Err(detail);
                }
            }
            Ok((Some(object.owner()), forest))
        },
        Some(facts) => {
            let owned = match owner {
                Some(current) => current == object.owner(),
                None => false,
            };
            if !owned {
                let mut detail = String::from_str("RUN at ");
                detail.append(batch_text(next).as_str());
                detail.append(" does not match the replay owner");
                return Err(detail);
            }
            proof {
                let said = crate::domain::wal::facts_model(facts@);
                assert forall|i: int| 0 <= i < facts@.len() implies (#[trigger] facts@[i])@.wf() by {
                    assert(said[i] == facts@[i]@);
                }
            }
            let mut state = forest;
            match fold_replay_facts(&mut state, next, facts) {
                None => Ok((owner, state)),
                Some(anomaly) => Err(anomaly),
            }
        },
    }
}

/// Replay never hands ownership back: the owner after a log object is no older than
/// the owner before it, and a RUN changes no owner.
pub proof fn law_replay_owner_never_decreases(
    owner: Option<OwnerToken>,
    forest: ForestModel,
    next: BatchId,
    object: WalModel,
)
    ensures
        spec_replay_object(owner, forest, next, object) matches Ok((after, _)) ==> {
            &&& after is Some
            &&& object.facts is Some ==> after == owner
            &&& owner matches Some(before) ==> before.generation.value
                <= after->0.generation.value
            &&& object.facts is None && owner is Some ==> owner->0.generation.value
                < after->0.generation.value
        },
{
}

/// Whether the listed tail lets a fence be placed behind it.
#[derive(Debug, PartialEq, Eq)]
pub enum FenceTailGate {
    Clear,
    RefreshAnomaly { detail: String },
}

/// What the tail gate says: clear, or the anomaly to classify.
pub open spec fn gate_model(gate: FenceTailGate) -> Option<Seq<char>> {
    match gate {
        FenceTailGate::Clear => None,
        FenceTailGate::RefreshAnomaly { detail } => Some(detail@),
    }
}

/// The listed tail that must be looked at before a fence is placed: one after the
/// cut.
pub open spec fn spec_guarded_tail(cut: Option<BatchId>, listed_tail: Option<BatchId>) -> Option<
    BatchId,
> {
    match listed_tail {
        Some(tail) => if tail.value > crate::engine::admission::cut_value(cut) {
            Some(tail)
        } else {
            None
        },
        None => None,
    }
}

pub fn guarded_tail(cut: Option<BatchId>, listed_tail: Option<BatchId>) -> (tail: Option<BatchId>)
    requires
        listed_tail matches Some(tail) ==> tail.wf(),
    ensures
        tail == spec_guarded_tail(cut, listed_tail),
{
    let tail = match listed_tail {
        Some(tail) => tail,
        None => {
            return None;
        },
    };
    match cut {
        None => Some(tail),
        Some(cut) => if tail.value > cut.value {
            Some(tail)
        } else {
            None
        },
    }
}

/// What a read log object says, if it is there.
pub open spec fn read_model(read: Result<Option<WalObject>, TypedStoreError>) -> Result<
    Option<WalModel>,
    StoreErrorModel,
> {
    match read {
        Ok(Some(object)) => Ok(Some(object@)),
        Ok(None) => Ok(None),
        Err(error) => Err(error@),
    }
}

/// A listed tail lets a fence be placed when its owner is older than the claim.
pub open spec fn spec_guard_fence_tail(
    tail: BatchId,
    read: Result<Option<WalModel>, StoreErrorModel>,
    claim_owner: OwnerToken,
) -> Result<Option<Seq<char>>, ExitModel> {
    match read {
        Ok(None) => Err(
            ExitModel::Retryable(
                "listed WAL tail "@ + crate::engine::naming::batch_chars(tail)
                    + " disappeared before FENCE placement"@,
            ),
        ),
        Ok(Some(object)) => if object.owner.generation.value >= claim_owner.generation.value {
            Ok(
                Some(
                    "listed WAL tail "@ + crate::engine::naming::batch_chars(tail) + " has owner "@
                        + crate::engine::naming::owner_chars(object.owner)
                        + ", not older than the authored owner"@,
                ),
            )
        } else {
            Ok(None)
        },
        Err(StoreErrorModel::Contradiction(detail)) => Ok(Some(detail)),
        Err(error) => Err(error.exit()),
    }
}

/// Looks at the listed tail before a fence is placed behind it.
pub fn guard_fence_tail(
    tail: BatchId,
    read: Result<Option<WalObject>, TypedStoreError>,
    claim_owner: OwnerToken,
) -> (gate: Result<FenceTailGate, BootstrapExit>)
    ensures
        match gate {
            Ok(gate) => spec_guard_fence_tail(tail, read_model(read), claim_owner) == Ok::<
                _,
                ExitModel,
            >(gate_model(gate)),
            Err(exit) => spec_guard_fence_tail(tail, read_model(read), claim_owner) == Err::<
                Option<Seq<char>>,
                _,
            >(exit@),
        },
{
    let object = match read {
        Ok(Some(object)) => object,
        Ok(None) => {
            let mut detail = String::from_str("listed WAL tail ");
            detail.append(batch_text(tail).as_str());
            detail.append(" disappeared before FENCE placement");
            return Err(BootstrapExit::Retryable { detail });
        },
        Err(TypedStoreError::Contradiction { detail }) => {
            return Ok(FenceTailGate::RefreshAnomaly { detail });
        },
        Err(error) => {
            return Err(map_typed_store_error(error));
        },
    };
    if object.owner().generation.value >= claim_owner.generation.value {
        let mut detail = String::from_str("listed WAL tail ");
        detail.append(batch_text(tail).as_str());
        detail.append(" has owner ");
        detail.append(owner_text(object.owner()).as_str());
        detail.append(", not older than the authored owner");
        return Ok(FenceTailGate::RefreshAnomaly { detail });
    }
    Ok(FenceTailGate::Clear)
}

} // verus!
