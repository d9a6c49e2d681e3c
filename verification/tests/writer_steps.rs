//! The order of the writer's decisions, event by event.

use strom_storage::domain::bounds::{WAL_ENCODED_BYTES_MAX, WAL_SUFFIX_CHECKPOINT_SPAN_TRIGGER};
use strom_storage::domain::coordinate::{BatchId, OwnerToken, SealGeneration};
use strom_storage::domain::directory::DirectoryKey;
use strom_storage::domain::partition::PartitionId;
use strom_storage::domain::protocol::{
    ExpiryPolicy, ProtocolField, StreamContentType, StreamLifecycle, StreamTtl,
};
use strom_storage::domain::seal::{Seal, TreeVersion, WalReplayPoint};
use strom_storage::engine::admission::CreateStream;
use strom_storage::engine::checkpoint::CheckpointInstall;
use strom_storage::engine::claim::AuthoredClaim;
use strom_storage::engine::completion::CheckpointCompletion;
use strom_storage::engine::forest::Forest;
use strom_storage::engine::options::Options;
use strom_storage::engine::service::WriterExit;
use strom_storage::engine::store::{TypedStoreError, WalEstablishment};
use strom_storage::engine::writer_machine::{WriterEvent, WriterMachine, WriterStep};
use strom_storage::engine::writer_state::{
    CheckpointPlan, CommandEnvelope, Completion, CreateOutcome, WriterState,
};

fn grammar(_field: ProtocolField<'_>) -> bool {
    true
}

fn path(raw: &str) -> DirectoryKey {
    DirectoryKey::new(raw.as_bytes().to_vec(), &grammar).unwrap()
}

fn batch(raw: u64) -> BatchId {
    BatchId::try_from(raw).unwrap()
}

fn generation(raw: u64) -> SealGeneration {
    SealGeneration::try_from(raw).unwrap()
}

fn seal(number: u64, replay: WalReplayPoint) -> Seal {
    Seal::new(
        PartitionId::try_from([1; 16]).unwrap(),
        generation(number),
        replay,
        TreeVersion::empty(),
        TreeVersion::empty(),
    )
    .unwrap()
}

fn machine_at(durable_batch: u64) -> WriterMachine {
    let state = WriterState::new(
        AuthoredClaim::new(generation(2)),
        seal(2, WalReplayPoint::Genesis),
        Forest::empty(),
        Forest::empty(),
        batch(durable_batch),
        batch(durable_batch + 1),
    );
    WriterMachine::new(state, Options::default())
}

fn stream(raw: &str) -> CreateStream {
    CreateStream {
        path: path(raw),
        content_type: StreamContentType::new("a/b".to_string(), &grammar).unwrap(),
        expiry: ExpiryPolicy::Never,
        lifecycle: StreamLifecycle::Open,
    }
}

fn create(raw: &str, reply: u64) -> WriterEvent {
    WriterEvent::Command(CommandEnvelope::Create { command: stream(raw), reply })
}

fn created(reply: u64) -> Completion {
    Completion::Create { outcome: Ok(CreateOutcome::Created), reply }
}

fn already_exists(reply: u64) -> Completion {
    Completion::Create { outcome: Ok(CreateOutcome::AlreadyExists), reply }
}

fn durable(number: u64) -> WriterEvent {
    WriterEvent::WalEstablished { batch: batch(number), result: Ok(WalEstablishment::Durable) }
}

fn run_of(step: &WriterStep) -> Option<u64> {
    step.run.as_ref().map(|run| run.batch().get())
}

fn nothing() -> WriterStep {
    WriterStep {
        replies: Vec::new(),
        view: None,
        collect: None,
        run: None,
        checkpoint: None,
        exit: None,
    }
}

#[test]
fn a_command_waits_for_the_spacing_and_later_ones_behind_the_flight() {
    let mut machine = machine_at(1);
    assert_eq!(nothing(), machine.handle(true, WriterEvent::Started));
    assert!(machine.admission_open() && !machine.awaits_flush());

    assert_eq!(nothing(), machine.handle(false, create("events/a", 1)));
    assert!(machine.awaits_flush(), "the timer is armed");
    assert!(!machine.admission_open(), "nothing joins a barrier that only waits for time");
    let step = machine.handle(true, WriterEvent::FlushDue);
    assert_eq!(Some(2), run_of(&step));
    assert!(step.replies.is_empty(), "no reply comes before durability");
    assert!(machine.admission_open() && !machine.awaits_flush());

    assert_eq!(nothing(), machine.handle(true, create("events/b", 2)));
    assert_eq!(nothing(), machine.handle(true, create("events/a", 3)));
    let step = machine.handle(false, durable(2));
    assert_eq!(vec![created(1)], step.replies);
    let view = step.view.unwrap();
    assert_eq!(generation(2), view.generation());
    assert!(view.resolve(&path("events/a")).is_some() && view.resolve(&path("events/b")).is_none());
    assert_eq!(None, step.run.map(|run| run.batch()), "the spacing has not passed");

    let step = machine.handle(true, WriterEvent::FlushDue);
    assert_eq!(Some(3), run_of(&step));
    let step = machine.handle(true, durable(3));
    assert_eq!(vec![created(2), already_exists(3)], step.replies);
    assert_eq!(None, step.exit);
}

#[test]
fn byte_pressure_flushes_before_the_spacing_has_passed() {
    let mut machine = machine_at(1);
    machine.options = Options::default().with_flush_buffer_bytes(1).unwrap();
    assert_eq!(Some(2), run_of(&machine.handle(false, create("events/a", 1))));
    assert_eq!(WAL_ENCODED_BYTES_MAX, Options::default().flush_buffer_bytes());
}

#[test]
fn an_idempotent_command_is_answered_without_a_run() {
    let mut machine = machine_at(1);
    machine.handle(true, create("events/a", 1));
    machine.handle(true, durable(2));
    let step = machine.handle(true, create("events/a", 2));
    assert_eq!(WriterStep { replies: vec![already_exists(2)], ..nothing() }, step);
}

#[test]
fn only_durability_lets_the_writer_go_on() {
    let outcomes: Vec<(Result<WalEstablishment, TypedStoreError>, WriterExit)> = vec![
        (Ok(WalEstablishment::Occupied), WriterExit::Fenced { batch: batch(2) }),
        (
            Ok(WalEstablishment::UnresolvedAbsent),
            WriterExit::Poisoned { batch: batch(2), detail: "WAL create is unresolved".to_string() },
        ),
        (
            Err(TypedStoreError::Contradiction { detail: "foreign".to_string() }),
            WriterExit::Contradiction { batch: batch(2), detail: "foreign".to_string() },
        ),
    ];
    for (result, exit) in outcomes {
        let mut machine = machine_at(1);
        machine.handle(true, create("events/a", 1));
        machine.handle(true, create("events/b", 2));
        let step = machine.handle(true, WriterEvent::WalEstablished { batch: batch(2), result });
        assert_eq!(WriterStep { exit: Some(exit), ..nothing() }, step, "nothing follows the end");
    }
}

#[test]
fn a_closing_writer_flushes_at_once_and_ends_when_drained() {
    let mut idle = machine_at(1);
    let step = idle.handle(false, WriterEvent::IngressClosed { cancelled: false });
    assert_eq!(WriterStep { exit: Some(WriterExit::Shutdown), ..nothing() }, step);

    let mut machine = machine_at(1);
    machine.handle(true, create("events/a", 1));
    machine.handle(false, create("events/b", 2));
    let step = machine.handle(false, WriterEvent::IngressClosed { cancelled: false });
    assert_eq!(nothing(), step, "a RUN is in flight");
    assert!(!machine.admission_open());
    let step = machine.handle(false, durable(2));
    assert_eq!(vec![created(1)], step.replies);
    assert_eq!(Some(3), run_of(&step), "closing does not wait for the spacing");
    assert_eq!(None, step.exit);
    let step = machine.handle(false, durable(3));
    assert_eq!(vec![created(2)], step.replies);
    assert_eq!(Some(WriterExit::Shutdown), step.exit);
}

/// A writer whose next event makes its checkpoint due, and the plan that it then makes.
fn planned() -> (WriterMachine, CheckpointPlan) {
    let mut machine = machine_at(WAL_SUFFIX_CHECKPOINT_SPAN_TRIGGER);
    let step = machine.handle(true, WriterEvent::Started);
    let plan = step.checkpoint.unwrap();
    assert_eq!(WAL_SUFFIX_CHECKPOINT_SPAN_TRIGGER, plan.ticket.cut.get());
    assert_eq!(plan.ticket.cut, plan.input.cut);
    assert_eq!(Some(plan.ticket), machine.state.active_checkpoint());
    assert_eq!(nothing(), machine.handle(true, WriterEvent::FlushDue), "one checkpoint at a time");
    (machine, plan)
}

fn install(plan: &CheckpointPlan) -> CheckpointCompletion {
    CheckpointCompletion::Installed(CheckpointInstall {
        source: plan.input.source.clone(),
        successor: seal(
            3,
            WalReplayPoint::Through {
                batch: plan.ticket.cut,
                owner: OwnerToken::from(generation(2)),
            },
        ),
        snapshot: plan.input.snapshot.clone(),
    })
}

#[test]
fn an_installed_checkpoint_is_published_and_collected() {
    let (mut machine, plan) = planned();
    let ticket = plan.ticket;
    let CheckpointCompletion::Installed(expected) = install(&plan) else { unreachable!() };
    assert!(machine.state.expects_successor(ticket, &expected.successor));
    assert!(!machine.state.expects_successor(ticket, &plan.input.source));
    let step = machine
        .handle(true, WriterEvent::CheckpointFinished { ticket, completion: install(&plan) });
    assert_eq!(Some((seal(2, WalReplayPoint::Genesis), expected.successor)), step.collect);
    assert_eq!(generation(3), step.view.unwrap().generation());
    assert_eq!(None, machine.state.active_checkpoint());
    assert_eq!(nothing(), machine.handle(true, WriterEvent::CollectFinished));
}

#[test]
fn a_checkpoint_that_ends_otherwise_is_abandoned_or_ends_the_writer() {
    let (mut machine, plan) = planned();
    let ticket = plan.ticket;
    let abandoned =
        WriterEvent::CheckpointFinished { ticket, completion: CheckpointCompletion::Abandoned };
    assert_eq!(nothing(), machine.handle(true, abandoned));
    assert_eq!(None, machine.state.active_checkpoint());
    let stale = WriterEvent::CheckpointFinished { ticket, completion: install(&plan) };
    assert_eq!(nothing(), machine.handle(true, stale), "no attempt is active any more");

    let (mut machine, plan) = planned();
    let cancelled = WriterEvent::CheckpointCancelled { ticket: plan.ticket };
    assert_eq!(nothing(), machine.handle(true, cancelled));
    assert_eq!(None, machine.state.active_checkpoint());

    let (mut machine, plan) = planned();
    let fenced = WriterEvent::CheckpointFinished {
        ticket: plan.ticket,
        completion: CheckpointCompletion::Fenced,
    };
    let exit = Some(WriterExit::Fenced { batch: plan.ticket.cut });
    assert_eq!(WriterStep { exit, ..nothing() }, machine.handle(true, fenced));
}

#[test]
fn closing_waits_for_a_publication_and_starts_no_collection() {
    let (mut machine, _plan) = planned();
    let step = machine.handle(true, WriterEvent::IngressClosed { cancelled: true });
    assert_eq!(Some(WriterExit::Shutdown), step.exit, "a cancelled checkpoint is given up");

    let (mut machine, plan) = planned();
    let step = machine.handle(true, WriterEvent::IngressClosed { cancelled: false });
    assert_eq!(nothing(), step);
    let finished =
        WriterEvent::CheckpointFinished { ticket: plan.ticket, completion: install(&plan) };
    let step = machine.handle(true, finished);
    assert_eq!(None, step.collect);
    assert!(step.view.is_some());
    assert_eq!(Some(WriterExit::Shutdown), step.exit);
}

#[test]
fn commands_outside_the_bounds_are_told_apart() {
    let valid = |command| CommandEnvelope::Create { command, reply: 1 }.is_valid();
    assert!(valid(stream("events/a")));
    let mut instant = stream("events/a");
    instant.expiry = ExpiryPolicy::SlidingTtl(StreamTtl { seconds: 0 });
    assert!(!valid(instant));
    let mut long = stream("events/a");
    long.path.bytes = vec![b'a'; 100_000];
    assert!(!valid(long));
    let mut text = stream("events/a");
    text.content_type.text = "a".repeat(100_000);
    assert!(!valid(text));
    let bad = DirectoryKey { bytes: vec![0xff] };
    assert!(!CommandEnvelope::Close { path: bad.clone(), reply: 1 }.is_valid());
    assert!(!CommandEnvelope::Delete { path: bad, reply: 1 }.is_valid());
    assert!(CommandEnvelope::Delete { path: path("events/a"), reply: 1 }.is_valid());
}
