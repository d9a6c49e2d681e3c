//! The sole writer's state between admission and durability.

use strom_storage::domain::bounds::{
    WAL_RUN_FACTS_MAX, WAL_SUFFIX_CHECKPOINT_SPAN_TRIGGER, WAL_SUFFIX_COORDINATES_MAX_V2,
};
use strom_storage::domain::coordinate::{BatchId, SealGeneration, StreamUid};
use strom_storage::domain::directory::DirectoryKey;
use strom_storage::domain::partition::PartitionId;
use strom_storage::domain::protocol::{
    ExpiryPolicy, ProtocolField, StreamContentType, StreamLifecycle, StreamTtl,
};
use strom_storage::domain::seal::{Seal, TreeVersion, WalReplayPoint};
use strom_storage::domain::wal::OperationFact;
use strom_storage::engine::admission::{decide_suffix_room, AdmissionRefusal, CreateStream};
use strom_storage::engine::checkpoint::CheckpointInstall;
use strom_storage::engine::claim::AuthoredClaim;
use strom_storage::engine::forest::{Applied, Forest};
use strom_storage::engine::writer_state::{
    AdmissionDecision, CloseStreamOutcome, CommandEnvelope, Completion, CreateOutcome,
    FlightDecision, WriterState,
};

fn grammar(_field: ProtocolField<'_>) -> bool {
    true
}

fn path(raw: &str) -> DirectoryKey {
    DirectoryKey::new(raw.as_bytes().to_vec(), &grammar).unwrap()
}

fn kind(raw: &str) -> StreamContentType {
    StreamContentType::new(raw.to_string(), &grammar).unwrap()
}

fn octet_stream() -> StreamContentType {
    kind("application/octet-stream")
}

fn batch(raw: u64) -> BatchId {
    BatchId::try_from(raw).unwrap()
}

fn state_at(durable_batch: u64, forest: Forest) -> WriterState {
    let claim_generation = SealGeneration::try_from(2).unwrap();
    let seal = Seal::new(
        PartitionId::try_from([1; 16]).unwrap(),
        claim_generation,
        WalReplayPoint::Genesis,
        TreeVersion::empty(),
        TreeVersion::empty(),
    )
    .unwrap();
    WriterState::new(
        AuthoredClaim::new(claim_generation),
        seal,
        Forest::empty(),
        forest,
        batch(durable_batch),
        batch(durable_batch + 1),
    )
}

fn open_stream(raw: &str) -> CreateStream {
    CreateStream {
        path: path(raw),
        content_type: octet_stream(),
        expiry: ExpiryPolicy::Never,
        lifecycle: StreamLifecycle::Open,
    }
}

fn create(raw: &str, reply: u64) -> CommandEnvelope {
    CommandEnvelope::Create { command: open_stream(raw), reply }
}

fn run_batch(decision: FlightDecision) -> BatchId {
    match decision {
        FlightDecision::Run(encoded) => encoded.batch(),
        other => panic!("a queued fact produces one WAL run: {other:?}"),
    }
}

fn created(reply: u64) -> Completion {
    Completion::Create { outcome: Ok(CreateOutcome::Created), reply }
}

fn already_exists(reply: u64) -> Completion {
    Completion::Create { outcome: Ok(CreateOutcome::AlreadyExists), reply }
}

fn refused(refusal: AdmissionRefusal, reply: u64) -> Completion {
    Completion::Create { outcome: Err(refusal), reply }
}

fn drive_runs(state: &mut WriterState, count: u64) {
    for ordinal in 0..count {
        let raw = format!("checkpoint/{ordinal}-{}", state.next_batch.get());
        assert_eq!(AdmissionDecision::Queued, state.admit_command(create(&raw, ordinal)));
        let batch = run_batch(state.take_flight());
        assert_eq!(vec![created(ordinal)], state.record_wal_durable(batch).replies);
    }
}

#[test]
fn durability_releases_replies_in_admission_order_and_publishes_the_fold() {
    let mut state = state_at(1, Forest::empty());
    assert_eq!(AdmissionDecision::Queued, state.admit_command(create("events/first", 1)));
    let first_batch = run_batch(state.take_flight());
    assert_eq!(batch(2), first_batch);
    assert!(state.has_flight());

    assert_eq!(AdmissionDecision::Queued, state.admit_command(create("events/second", 2)));
    assert_eq!(AdmissionDecision::Queued, state.admit_command(create("events/third", 3)));
    let durable = state.record_wal_durable(first_batch);
    assert_eq!(vec![created(1)], durable.replies);

    let second_batch = run_batch(state.take_flight());
    let durable = state.record_wal_durable(second_batch);
    assert_eq!(&durable.forest, state.durable_forest());
    assert_eq!(vec![created(2), created(3)], durable.replies);
    assert!(state.is_quiescent());
}

#[test]
fn duplicate_behind_a_flight_waits_but_without_a_flight_settles() {
    let mut state = state_at(1, Forest::empty());
    assert_eq!(AdmissionDecision::Queued, state.admit_command(create("events/duplicate", 1)));
    let batch = run_batch(state.take_flight());
    assert_eq!(AdmissionDecision::Queued, state.admit_command(create("events/duplicate", 2)));
    assert_eq!(vec![created(1)], state.record_wal_durable(batch).replies);
    assert_eq!(
        FlightDecision::Replies(vec![already_exists(2)]),
        state.take_flight(),
        "the duplicate barrier produces replies without a WAL run"
    );
    assert_eq!(
        AdmissionDecision::Settled(already_exists(3)),
        state.admit_command(create("events/duplicate", 3))
    );
}

#[test]
fn suffix_shed_changes_only_retry_accounting_and_idempotence_stays_answerable() {
    let mut forest = Forest::empty();
    assert_eq!(
        Ok(Applied),
        forest.strict_fold(
            batch(1),
            &OperationFact::StreamCreated {
                path: path("events/existing"),
                uid: StreamUid::try_from(1).unwrap(),
                content_type: octet_stream(),
                expiry: ExpiryPolicy::Never,
                lifecycle: StreamLifecycle::Open,
            },
        )
    );
    let durable = batch(WAL_SUFFIX_COORDINATES_MAX_V2 - 1);
    let mut state = state_at(durable.get(), forest.clone());
    let admitted_before = state.admitted.clone();

    assert_eq!(
        AdmissionDecision::Settled(refused(AdmissionRefusal::Overloaded, 1)),
        state.admit_command(create("events/refused", 1))
    );
    assert_eq!(admitted_before, state.admitted);
    assert_eq!(Some(durable), state.retry_checkpoint_at);

    assert_eq!(
        AdmissionDecision::Settled(already_exists(2)),
        state.admit_command(create("events/existing", 2))
    );
    assert_eq!(&forest, state.durable_forest());
}

#[test]
fn all_idempotent_pending_produces_replies_without_consuming_a_coordinate() {
    let mut state = state_at(1, Forest::empty());
    assert_eq!(AdmissionDecision::Queued, state.admit_command(create("events/barrier", 1)));
    let batch = run_batch(state.take_flight());
    assert_eq!(AdmissionDecision::Queued, state.admit_command(create("events/barrier", 2)));
    assert_eq!(vec![created(1)], state.record_wal_durable(batch).replies);
    let next_before = state.next_batch;
    assert_eq!(FlightDecision::Replies(vec![already_exists(2)]), state.take_flight());
    assert_eq!(next_before, state.next_batch);
    assert_eq!(FlightDecision::Idle, state.take_flight());
}

#[test]
fn quiescent_transitions_keep_admitted_and_durable_state_equal() {
    let mut state = state_at(1, Forest::empty());
    assert_eq!(AdmissionDecision::Queued, state.admit_command(create("events/one", 1)));
    let batch = run_batch(state.take_flight());
    assert_ne!(state.admitted, state.durable);
    assert_eq!(AdmissionDecision::Queued, state.admit_command(create("events/one", 2)));
    state.record_wal_durable(batch);
    assert_eq!(state.admitted, state.durable);
    assert_eq!(FlightDecision::Replies(vec![already_exists(2)]), state.take_flight());
    assert!(state.is_quiescent());
    assert_eq!(state.admitted, state.durable);
}

#[test]
fn full_pending_barrier_refuses_before_admission() {
    let mut state = state_at(1, Forest::empty());
    assert_eq!(AdmissionDecision::Queued, state.admit_command(create("events/full", 0)));
    let _batch = run_batch(state.take_flight());
    for reply in 0..WAL_RUN_FACTS_MAX {
        assert_eq!(
            AdmissionDecision::Queued,
            state.admit_command(create("events/full", reply as u64))
        );
    }
    assert_eq!(
        AdmissionDecision::Settled(refused(AdmissionRefusal::Overloaded, 9)),
        state.admit_command(create("events/full", 9))
    );
    assert_eq!(WAL_RUN_FACTS_MAX, state.pending.len());
}

#[test]
fn checkpoint_planning_suppresses_attempts_and_retry_rearms_the_same_cut() {
    let mut state = state_at(1, Forest::empty());
    assert_eq!(None, state.take_checkpoint());
    drive_runs(&mut state, WAL_SUFFIX_CHECKPOINT_SPAN_TRIGGER - 2);
    assert_eq!(None, state.take_checkpoint());
    drive_runs(&mut state, 1);

    let first = state.take_checkpoint().unwrap();
    assert_eq!(0, first.ticket.attempt.local_counter());
    assert_eq!(Some(first.ticket), state.active_checkpoint());
    assert_eq!(None, state.take_checkpoint());
    state.abandon_checkpoint(first.ticket);
    assert_eq!(None, state.take_checkpoint(), "an attempted cut is suppressed");

    let durable = WAL_SUFFIX_COORDINATES_MAX_V2 - 1;
    let mut retry_state = state_at(durable, Forest::empty());
    let first = retry_state.take_checkpoint().unwrap();
    retry_state.abandon_checkpoint(first.ticket);
    assert_eq!(
        AdmissionDecision::Settled(refused(AdmissionRefusal::Overloaded, 1)),
        retry_state.admit_command(create("checkpoint/shed", 1))
    );
    let retry = retry_state.take_checkpoint().unwrap();
    assert_eq!(first.ticket.cut, retry.ticket.cut);
    assert_eq!(1, retry.ticket.attempt.local_counter());
    assert_eq!(Some(retry.ticket), retry_state.active_checkpoint());
}

#[test]
fn checkpoint_install_updates_base_and_seal_without_touching_durable_or_pending() {
    let mut state = state_at(1, Forest::empty());
    drive_runs(&mut state, WAL_SUFFIX_CHECKPOINT_SPAN_TRIGGER);
    let plan = state.take_checkpoint().unwrap();
    let durable = state.durable.clone();
    let admitted = state.admitted.clone();
    let successor = Seal::new(
        state.partition(),
        state.seal.generation().successor().unwrap(),
        WalReplayPoint::Through { batch: plan.ticket.cut, owner: state.claim.owner() },
        TreeVersion::empty(),
        TreeVersion::empty(),
    )
    .unwrap();
    let install = CheckpointInstall {
        source: state.seal.clone(),
        successor: successor.clone(),
        snapshot: durable.clone(),
    };
    let installed = state.install_checkpoint(plan.ticket, install);
    assert_eq!(successor, state.seal);
    assert_eq!(durable, state.base);
    assert_eq!(durable, state.durable);
    assert_eq!(admitted, state.admitted);
    assert_eq!(installed.forest, state.durable);

    drive_runs(&mut state, WAL_SUFFIX_CHECKPOINT_SPAN_TRIGGER);
    let plan = state.take_checkpoint().unwrap();
    state.abandon_checkpoint(plan.ticket);
    assert_eq!(None, state.active_checkpoint());
}

#[test]
fn admission_refusal_and_idempotence_axes_are_complete() {
    let mut state = state_at(1, Forest::empty());
    assert_eq!(AdmissionDecision::Queued, state.admit_command(create("events/axes", 1)));
    let batch = run_batch(state.take_flight());
    assert_eq!(vec![created(1)], state.record_wal_durable(batch).replies);
    let forest_before_refusals = state.durable.clone();

    let commands = [
        CreateStream { content_type: kind("text/plain"), ..open_stream("events/axes") },
        CreateStream {
            expiry: ExpiryPolicy::SlidingTtl(StreamTtl { seconds: 60 }),
            ..open_stream("events/axes")
        },
        CreateStream { lifecycle: StreamLifecycle::Closed, ..open_stream("events/axes") },
    ];
    for command in commands {
        assert_eq!(
            AdmissionDecision::Settled(refused(AdmissionRefusal::PathOccupied, 2)),
            state.admit_command(CommandEnvelope::Create { command, reply: 2 })
        );
        assert_eq!(forest_before_refusals, state.admitted);
        assert_eq!(forest_before_refusals, state.durable);
    }

    assert_eq!(
        AdmissionDecision::Settled(Completion::Close {
            outcome: Err(AdmissionRefusal::PathNotLive),
            reply: 3
        }),
        state.admit_command(CommandEnvelope::Close { path: path("events/missing"), reply: 3 })
    );
    assert_eq!(forest_before_refusals, state.admitted);
    assert_eq!(forest_before_refusals, state.durable);

    let close = |reply: u64| CommandEnvelope::Close { path: path("events/axes"), reply };
    assert_eq!(AdmissionDecision::Queued, state.admit_command(close(4)));
    let batch = run_batch(state.take_flight());
    assert_eq!(
        vec![Completion::Close { outcome: Ok(CloseStreamOutcome::Closed), reply: 4 }],
        state.record_wal_durable(batch).replies
    );
    assert_eq!(
        AdmissionDecision::Settled(Completion::Close {
            outcome: Ok(CloseStreamOutcome::AlreadyClosed),
            reply: 5
        }),
        state.admit_command(close(5))
    );

    let delete = |reply: u64| CommandEnvelope::Delete { path: path("events/axes"), reply };
    assert_eq!(AdmissionDecision::Queued, state.admit_command(delete(6)));
    let batch = run_batch(state.take_flight());
    assert_eq!(
        vec![Completion::Delete { outcome: Ok(()), reply: 6 }],
        state.record_wal_durable(batch).replies
    );
    assert_eq!(
        AdmissionDecision::Settled(Completion::Delete {
            outcome: Err(AdmissionRefusal::PathNotLive),
            reply: 7
        }),
        state.admit_command(delete(7))
    );
}

#[test]
fn an_idle_state_starts_no_flight_and_an_active_flight_starts_no_other() {
    let mut state = state_at(1, Forest::empty());
    assert_eq!(FlightDecision::Idle, state.take_flight());
    assert_eq!(AdmissionDecision::Queued, state.admit_command(create("events/a", 1)));
    let batch = run_batch(state.take_flight());
    assert_eq!(AdmissionDecision::Queued, state.admit_command(create("events/b", 2)));
    assert_eq!(FlightDecision::Idle, state.take_flight());
    assert!(state.has_flight());
    assert_eq!(1, state.record_wal_durable(batch).replies.len());
}

#[test]
fn state_suffix_gate_reserves_exactly_one_takeover_coordinate() {
    let last_genesis_run = batch(WAL_SUFFIX_COORDINATES_MAX_V2 - 1);
    assert!(decide_suffix_room(None, last_genesis_run));
    assert!(!decide_suffix_room(None, last_genesis_run.successor().unwrap()));
    let cut = batch(u64::MAX - 2);
    assert!(decide_suffix_room(Some(cut), batch(u64::MAX - 1)));
    assert!(!decide_suffix_room(Some(cut), batch(u64::MAX)));
}

#[test]
fn waiting_facts_are_estimated_by_their_texts() {
    let mut state = state_at(1, Forest::empty());
    assert_eq!(0, state.buffered_bytes());
    assert_eq!(AdmissionDecision::Queued, state.admit_command(create("events/a", 1)));
    let one = 128 + "events/a".len() + "application/octet-stream".len();
    assert_eq!(one, state.buffered_bytes());
    let batch = run_batch(state.take_flight());
    assert_eq!(0, state.buffered_bytes(), "what is in flight waits no more");
    assert_eq!(AdmissionDecision::Queued, state.admit_command(create("events/a", 2)));
    assert_eq!(0, state.buffered_bytes(), "a reply that only waits is no fact");
    let delete = CommandEnvelope::Delete { path: path("events/a"), reply: 3 };
    assert_eq!(AdmissionDecision::Queued, state.admit_command(delete));
    assert_eq!(128 + "events/a".len(), state.buffered_bytes());
    state.record_wal_durable(batch);
}
