//! Takeover planning, replay and source planning.

use strom_storage::domain::bounds::{
    PARTITION_BOOTSTRAP_BYTES_MAX_V2, PARTITION_BOOTSTRAP_OBJECTS_MAX_V2, SST_OBJECT_BYTES_MAX,
    WAL_SUFFIX_COORDINATES_MAX_V2,
};
use strom_storage::domain::coordinate::{BatchId, OwnerToken, SealGeneration, StreamUid};
use strom_storage::domain::directory::{DirectoryEntry, DirectoryKey};
use strom_storage::domain::partition::PartitionId;
use strom_storage::domain::protocol::ProtocolField;
use strom_storage::domain::seal::{Seal, SortedRun, TableRef, TreeVersion, WalReplayPoint};
use strom_storage::domain::table::{AttemptId, FreshIdentity, StoreKind, TableObjectId};
use strom_storage::domain::protocol::{ExpiryPolicy, StreamContentType, StreamLifecycle};
use strom_storage::domain::wal::{BoundedNonEmptyVec, OperationFact, WalBody, WalObject};
use strom_storage::engine::base_load::plan_bootstrap_sources;
use strom_storage::engine::bootstrap_exit::BootstrapExit;
use strom_storage::engine::forest::{FoldContradiction, Forest, ForestContradiction};
use strom_storage::engine::recovery::{
    bound_fence, fold_replay_facts, guard_fence_tail, guarded_tail, plan_fence_candidate,
    replan_fence, replay_object, replay_owner, replay_start, FenceTailGate,
};
use strom_storage::engine::store::TypedStoreError;

fn partition() -> PartitionId {
    "00112233-4455-6677-8899-aabbccddeeff".parse().unwrap()
}

fn batch(raw: u64) -> BatchId {
    BatchId::try_from(raw).unwrap()
}

fn generation(raw: u64) -> SealGeneration {
    SealGeneration::try_from(raw).unwrap()
}

fn seal_with_tables(count: usize, object_bytes: u64) -> Seal {
    let mut tables = Vec::new();
    for ordinal in 0..count {
        let fresh = FreshIdentity::new(
            generation(2),
            AttemptId::new(SealGeneration::genesis(), 1),
            ordinal as u32,
        )
        .unwrap();
        let object = TableObjectId::new(fresh, StoreKind::Directory);
        tables.push(TableRef::new(object, object_bytes).unwrap());
    }
    let directory = TreeVersion::try_from(vec![SortedRun::try_from(tables).unwrap()]).unwrap();
    Seal::new(
        partition(),
        generation(2),
        WalReplayPoint::Genesis,
        directory,
        TreeVersion::empty(),
    )
    .unwrap()
}

#[test]
fn fence_planning_clamps_to_the_greater_cut_or_surviving_tail() {
    assert_eq!(Ok(batch(1)), plan_fence_candidate(None, None));
    assert_eq!(Ok(batch(11)), plan_fence_candidate(Some(batch(10)), Some(batch(3))));
    assert_eq!(Ok(batch(20)), plan_fence_candidate(Some(batch(10)), Some(batch(19))));
}

#[test]
fn occupied_fence_replanning_rejects_a_nonadvancing_list() {
    assert!(matches!(
        replan_fence(None, batch(1), None),
        Err(BootstrapExit::Contradiction { .. })
    ));
    assert_eq!(Ok(batch(2)), replan_fence(None, batch(1), Some(batch(1))).map(|fence| fence.batch));
}

#[test]
fn stale_claimant_stops_before_appending_a_decreasing_owner_fence() {
    let newer_fence =
        WalObject::new(partition(), batch(1), OwnerToken::from(generation(3)), WalBody::Fence);
    assert_eq!(Some(batch(1)), guarded_tail(None, Some(batch(1))));
    assert!(matches!(
        guard_fence_tail(batch(1), Ok(Some(newer_fence)), OwnerToken::from(generation(2))),
        Ok(FenceTailGate::RefreshAnomaly { .. })
    ));
}

#[test]
fn replay_span_accepts_the_bound_and_rejects_one_beyond() {
    let cut = batch(50);
    let at_bound = batch(cut.get() + WAL_SUFFIX_COORDINATES_MAX_V2);
    assert_eq!(Ok(at_bound), bound_fence(Some(cut), at_bound).map(|fence| fence.batch));
    assert!(matches!(
        bound_fence(Some(cut), at_bound.successor().unwrap()),
        Err(BootstrapExit::Retryable { .. })
    ));
    assert!(matches!(
        bound_fence(Some(batch(u64::MAX - 1)), batch(u64::MAX)),
        Err(BootstrapExit::Retryable { .. })
    ));
}

#[test]
fn source_planner_checks_aggregate_object_and_byte_bounds_before_loading() {
    let object_limit = seal_with_tables(PARTITION_BOOTSTRAP_OBJECTS_MAX_V2, 1);
    assert_eq!(Ok(()), plan_bootstrap_sources(&object_limit).map(|_plan| ()));
    let object_over = seal_with_tables(PARTITION_BOOTSTRAP_OBJECTS_MAX_V2 + 1, 1);
    assert!(matches!(
        plan_bootstrap_sources(&object_over),
        Err(BootstrapExit::Contradiction { .. })
    ));

    let byte_limit_count = 256usize;
    assert_eq!(
        PARTITION_BOOTSTRAP_BYTES_MAX_V2,
        byte_limit_count as u64 * SST_OBJECT_BYTES_MAX,
        "the fixture count lands exactly on the aggregate byte bound"
    );
    let byte_limit = seal_with_tables(byte_limit_count, SST_OBJECT_BYTES_MAX);
    assert_eq!(Ok(()), plan_bootstrap_sources(&byte_limit).map(|_plan| ()));
    let byte_over = seal_with_tables(byte_limit_count + 1, SST_OBJECT_BYTES_MAX);
    assert!(matches!(
        plan_bootstrap_sources(&byte_over),
        Err(BootstrapExit::Contradiction { .. })
    ));
}

fn grammar(_field: ProtocolField<'_>) -> bool {
    true
}

fn path(raw: &str) -> DirectoryKey {
    DirectoryKey::new(raw.as_bytes().to_vec(), &grammar).unwrap()
}

fn created(raw: &str, number: u64) -> OperationFact {
    OperationFact::StreamCreated {
        path: path(raw),
        uid: StreamUid::try_from(number).unwrap(),
        content_type: StreamContentType::new("application/octet-stream".to_string(), &grammar)
            .unwrap(),
        expiry: ExpiryPolicy::Never,
        lifecycle: StreamLifecycle::Open,
    }
}

fn run(at: u64, owner: u64, facts: Vec<OperationFact>) -> WalObject {
    let facts = BoundedNonEmptyVec::try_from(facts).unwrap();
    let owner = OwnerToken::from(generation(owner));
    WalObject::new(partition(), batch(at), owner, WalBody::Run(facts))
}

fn fence(at: u64, owner: u64) -> WalObject {
    WalObject::new(partition(), batch(at), OwnerToken::from(generation(owner)), WalBody::Fence)
}

#[test]
fn replay_starts_behind_the_cut_under_its_owner() {
    let owner = OwnerToken::from(generation(4));
    assert_eq!(None, replay_owner(WalReplayPoint::Genesis));
    assert_eq!(Ok(batch(1)), replay_start(WalReplayPoint::Genesis));
    let through = WalReplayPoint::Through { batch: batch(8), owner };
    assert_eq!(Some(owner), replay_owner(through));
    assert_eq!(Ok(batch(9)), replay_start(through));
    let last = WalReplayPoint::Through { batch: batch(u64::MAX), owner };
    assert_eq!(
        Err(BootstrapExit::Retryable {
            detail: "Seal replay cut occupies the final WAL coordinate".to_string(),
        }),
        replay_start(last)
    );
}

#[test]
fn replay_folds_the_runs_of_strictly_increasing_owners() {
    let owner = |raw| Some(OwnerToken::from(generation(raw)));
    let (after, forest) =
        replay_object(None, Forest::empty(), batch(1), &fence(1, 2)).unwrap();
    assert_eq!(owner(2), after);
    let (after, forest) =
        replay_object(after, forest, batch(2), &run(2, 2, vec![created("events/a", 1)])).unwrap();
    assert_eq!(owner(2), after);
    assert_eq!(
        Some(DirectoryEntry::Live(StreamUid::try_from(1).unwrap())),
        forest.resolve(&path("events/a"))
    );
    let (after, forest) = replay_object(after, forest, batch(3), &fence(3, 5)).unwrap();
    assert_eq!(owner(5), after);
    assert_eq!(1, forest.path_count());

    assert_eq!(
        Err("FENCE at BatchId(4) does not strictly increase the replay owner".to_string()),
        replay_object(after, forest.clone(), batch(4), &fence(4, 5))
    );
    assert_eq!(
        Err("RUN at BatchId(4) does not match the replay owner".to_string()),
        replay_object(after, forest.clone(), batch(4), &run(4, 2, vec![created("events/b", 2)]))
    );
    assert_eq!(
        Err("RUN at BatchId(1) does not match the replay owner".to_string()),
        replay_object(None, forest.clone(), batch(1), &run(1, 2, vec![created("events/b", 2)]))
    );
    assert_eq!(
        Err(
            "fact in WAL RUN BatchId(4) contradicts recovered state: path is already occupied"
                .to_string()
        ),
        replay_object(after, forest, batch(4), &run(4, 5, vec![created("events/a", 2)]))
    );
}

#[test]
fn facts_fold_in_order_up_to_the_first_contradiction() {
    let mut forest = Forest::empty();
    assert_eq!(
        None,
        fold_replay_facts(
            &mut forest,
            batch(2),
            &[created("events/a", 1), created("events/b", 2)],
        )
    );
    assert_eq!(2, forest.path_count());
    assert_eq!(
        Some(
            "fact in WAL RUN BatchId(3) contradicts recovered state: \
             stream uid is not the dense successor"
                .to_string()
        ),
        fold_replay_facts(
            &mut forest,
            batch(3),
            &[created("events/c", 3), created("events/d", 3)],
        )
    );
}

#[test]
fn a_listed_tail_is_looked_at_before_the_fence() {
    let owner = OwnerToken::from(generation(5));
    assert_eq!(None, guarded_tail(Some(batch(4)), Some(batch(4))), "the cut covers it");
    assert_eq!(None, guarded_tail(None, None));
    assert_eq!(Some(batch(5)), guarded_tail(Some(batch(4)), Some(batch(5))));
    assert_eq!(
        Ok(FenceTailGate::Clear),
        guard_fence_tail(batch(5), Ok(Some(fence(5, 4))), owner)
    );
    assert_eq!(
        Ok(FenceTailGate::RefreshAnomaly {
            detail: "listed WAL tail BatchId(5) has owner OwnerToken(SealGeneration(5)), \
                     not older than the authored owner"
                .to_string(),
        }),
        guard_fence_tail(batch(5), Ok(Some(fence(5, 5))), owner)
    );
    assert_eq!(
        Err(BootstrapExit::Retryable {
            detail: "listed WAL tail BatchId(5) disappeared before FENCE placement".to_string(),
        }),
        guard_fence_tail(batch(5), Ok(None), owner)
    );
    let said = || "said".to_string();
    assert_eq!(
        Ok(FenceTailGate::RefreshAnomaly { detail: said() }),
        guard_fence_tail(batch(5), Err(TypedStoreError::Contradiction { detail: said() }), owner)
    );
    assert_eq!(
        Err(BootstrapExit::Contradiction { detail: said() }),
        guard_fence_tail(batch(5), Err(TypedStoreError::Rejected { detail: said() }), owner)
    );
    assert_eq!(
        Err(BootstrapExit::Retryable { detail: said() }),
        guard_fence_tail(batch(5), Err(TypedStoreError::Retryable { detail: said() }), owner)
    );
}

#[test]
fn exhausted_and_overlong_suffixes_are_retryable() {
    assert_eq!(
        Err(BootstrapExit::Retryable {
            detail: "WAL coordinate space is exhausted before takeover".to_string(),
        }),
        plan_fence_candidate(None, Some(batch(u64::MAX)))
    );
    assert_eq!(
        Err(BootstrapExit::Retryable {
            detail: "WAL coordinate space has no RUN coordinate after the takeover FENCE"
                .to_string(),
        }),
        bound_fence(None, batch(u64::MAX)).map(|fence| fence.batch)
    );
    assert_eq!(
        Err(BootstrapExit::Contradiction {
            detail: "takeover FENCE is not strictly after the Seal replay cut".to_string(),
        }),
        bound_fence(Some(batch(7)), batch(7)).map(|fence| fence.batch)
    );
    let over = WAL_SUFFIX_COORDINATES_MAX_V2 + 1;
    assert_eq!(
        Err(BootstrapExit::Retryable {
            detail: format!(
                "WAL suffix through takeover FENCE spans {over} coordinates; the bound is {}",
                WAL_SUFFIX_COORDINATES_MAX_V2
            ),
        }),
        bound_fence(None, batch(over)).map(|fence| fence.batch)
    );
}

#[test]
fn contradictions_spell_their_messages() {
    let folds = [
        (FoldContradiction::PathOccupied, "path is already occupied"),
        (FoldContradiction::PathCapacityExhausted, "partition path capacity is exhausted"),
        (FoldContradiction::UidNotDenseSuccessor, "stream uid is not the dense successor"),
        (FoldContradiction::PathNotLive, "path is not live"),
        (FoldContradiction::PathUidMismatch, "path uid does not match"),
        (FoldContradiction::StreamAlreadyClosed, "stream is already closed"),
    ];
    for (contradiction, message) in folds {
        assert_eq!(message, contradiction.to_string());
    }
    let rows = [
        (ForestContradiction::UidGap, "Directory stream uids are not dense and unique"),
        (
            ForestContradiction::CountMismatch,
            "Directory row count differs from the maximum allocated stream uid",
        ),
        (
            ForestContradiction::LiveWithoutRecord,
            "a Live Directory row has no Ledger record",
        ),
        (
            ForestContradiction::RecordWithoutLive,
            "a Ledger record has no Live Directory row",
        ),
        (
            ForestContradiction::TombstoneWithRecord,
            "a Tombstone Directory row still has a Ledger record",
        ),
    ];
    for (contradiction, message) in rows {
        assert_eq!(message, contradiction.to_string());
    }
}
