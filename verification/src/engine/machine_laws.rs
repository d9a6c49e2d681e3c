//! What the writer's own operations do to it, and how its steps fit together.

use vstd::prelude::*;

use crate::domain::candidate::EncodedWal;
use crate::domain::coordinate::BatchId;
use crate::domain::directory::DirectoryEntry;
use crate::domain::protocol::{ExpiryPolicy, ProtocolText, StreamLifecycle};
use crate::domain::seal::{Seal, WalReplayPoint};
use crate::domain::wal::{OperationFact, WalModel};
use crate::engine::admission::CreateStream;
use crate::engine::checkpoint::{CheckpointInstall, CheckpointTicket};
use crate::engine::claim::AuthoredClaim;
use crate::engine::collection::{Collection, CollectionEvent};
use crate::engine::forest::{Applied, FoldContradiction, Forest};
use crate::engine::options::Options;
use crate::engine::service::{PublishedView, WriterExit};
use crate::engine::stream_laws::differ_only_at;
use crate::engine::writer_effects::{EffectKey, ExitModel, TaskFailure};
use crate::engine::writer_laws::{
    barrier_is_taken, checkpoint_is_started, close_is_decided, create_is_decided,
    delete_is_decided, flight_is_durable, is_due,
};
use crate::engine::writer_machine::{
    joined_event, StepModel, WriterEvent, WriterMachine, WriterStep,
};
use crate::engine::writer_state::{
    AdmissionDecision, BarrierModel, CheckpointPlan, CommandEnvelope, Completion, DurableWal,
    FlightDecision, InstalledCheckpoint, PendingCommand, WriterModel, WriterState,
};

verus! {

// What the state says

/// A writer's state says its own fields.
pub proof fn law_states_say_their_fields(state: WriterState, i: int)
    ensures
        state@.claim == state.claim,
        state@.seal == state.seal@,
        state@.base == state.base@,
        state@.admitted == state.admitted@,
        state@.durable == state.durable@,
        state@.durable_batch == state.durable_batch,
        state@.next_batch == state.next_batch,
        state@.pending.len() == state.pending@.len(),
        0 <= i < state.pending@.len() ==> state@.pending[i] == state.pending@[i]@,
        state@.flight is Some <==> state.flight is Some,
        state.flight matches Some(flight) ==> {
            &&& state@.flight->0.batch == flight.batch
            &&& state@.flight->0.commands.len() == flight.commands@.len()
            &&& 0 <= i < flight.commands@.len() ==> state@.flight->0.commands[i]
                == flight.commands@[i]@
        },
        state@.checkpoint_attempt == state.checkpoint_attempt,
        state@.last_checkpoint_attempted_cut == state.last_checkpoint_attempted_cut,
        state@.retry_checkpoint_at == state.retry_checkpoint_at,
        state@.active_checkpoint == state.active_checkpoint,
{
}

/// A waiting command says its fact, if it has one, and its completion.
pub proof fn law_waiting_commands_say_their_fields(command: PendingCommand)
    ensures
        command@.completion == command.completion,
        command@.fact is Some <==> command.fact is Some,
        command.fact matches Some(fact) ==> command@.fact->0 == fact@,
{
}

/// A machine says its state, its buffer and whether it is closing; it starts open.
pub proof fn law_machines_say_their_fields(
    machine: WriterMachine,
    open: bool,
    awaits: bool,
    state: WriterState,
    options: Options,
    fresh: WriterMachine,
)
    requires
        call_ensures(WriterMachine::admission_open, (&machine,), open),
        call_ensures(WriterMachine::awaits_flush, (&machine,), awaits),
        call_ensures(WriterMachine::new, (state, options), fresh),
    ensures
        machine@.writer == machine.state@,
        machine@.flush_buffer_bytes == machine.options.flush_buffer_bytes,
        machine@.draining == machine.draining,
        open <==> !machine.draining && (machine.state.flight is Some || machine.state.pending@.len()
            == 0),
        awaits <==> machine.state.flight is None && machine.state.pending@.len() > 0,
        fresh@.writer == state@,
        fresh.options == options,
        !fresh.draining,
{
}

/// What may be asked of a writer: paths of at most five hundred and twelve bytes of UTF-8,
/// content types of at most two hundred and fifty-six bytes, no zero time to live.
pub proof fn law_valid_commands(
    create: CreateStream,
    created: bool,
    envelope: CommandEnvelope,
    valid: bool,
)
    requires
        call_ensures(CreateStream::is_valid, (&create,), created),
        call_ensures(CommandEnvelope::is_valid, (&envelope,), valid),
    ensures
        created <==> {
            &&& create.path.bytes@.len() <= 512 && vstd::utf8::valid_utf8(create.path.bytes@)
            &&& vstd::utf8::encode_utf8(create.content_type.text@).len() <= 256
            &&& create.expiry matches ExpiryPolicy::SlidingTtl(ttl) ==> ttl.seconds != 0
        },
        match envelope {
            CommandEnvelope::Create { command, .. } => valid <==> {
                &&& command.path.bytes@.len() <= 512 && vstd::utf8::valid_utf8(command.path.bytes@)
                &&& vstd::utf8::encode_utf8(command.content_type.text@).len() <= 256
                &&& command.expiry matches ExpiryPolicy::SlidingTtl(ttl) ==> ttl.seconds != 0
            },
            CommandEnvelope::Close { path, .. } => valid <==> path.bytes@.len() <= 512
                && vstd::utf8::valid_utf8(path.bytes@),
            CommandEnvelope::Delete { path, .. } => valid <==> path.bytes@.len() <= 512
                && vstd::utf8::valid_utf8(path.bytes@),
        },
{
}

/// A refused completion keeps its waiter and its kind.
pub proof fn law_refusals_keep_their_waiter(
    completion: Completion,
    refusal: crate::engine::admission::AdmissionRefusal,
    refused: Completion,
)
    requires
        call_ensures(Completion::refusal, (completion, refusal), refused),
    ensures
        match completion {
            Completion::Create { reply, .. } => refused == (Completion::Create {
                outcome: Err(refusal),
                reply,
            }),
            Completion::Close { reply, .. } => refused == (Completion::Close {
                outcome: Err(refusal),
                reply,
            }),
            Completion::Delete { reply, .. } => refused == (Completion::Delete {
                outcome: Err(refusal),
                reply,
            }),
        },
{
}

// The forest

/// A fold that is refused changes nothing; one that succeeds makes the created stream what
/// the fact says, dated with the batch, closes just the named stream, or leaves a
/// tombstone for it, and changes nothing else.
pub proof fn law_folds_do_what_the_fact_says(
    forest: &mut Forest,
    batch: BatchId,
    fact: OperationFact,
    applied: Result<Applied, FoldContradiction>,
)
    requires
        old(forest).wf(),
        call_ensures(Forest::strict_fold, (forest, batch, &fact), applied),
    ensures
        applied is Err ==> final(forest)@ == old(forest)@,
        applied is Ok ==> {
            let before = old(forest)@;
            let after = final(forest)@;
            match fact {
                OperationFact::StreamCreated { path, uid, content_type, expiry, lifecycle } => {
                    &&& !before.directory.dom().contains(path.bytes@)
                    &&& after.directory.dom().contains(path.bytes@)
                    &&& after.directory[path.bytes@] == DirectoryEntry::Live(uid)
                    &&& after.ledger.dom().contains(uid.value)
                    &&& after.ledger[uid.value].content_type == content_type.text@
                    &&& after.ledger[uid.value].expiry == expiry
                    &&& after.ledger[uid.value].lifecycle == lifecycle
                    &&& after.ledger[uid.value].created_at == batch
                    &&& differ_only_at(before, after, path.bytes@, uid.value)
                },
                OperationFact::StreamClosed { path, uid } => {
                    &&& before.directory.dom().contains(path.bytes@)
                    &&& before.directory[path.bytes@] == DirectoryEntry::Live(uid)
                    &&& before.ledger[uid.value].lifecycle == StreamLifecycle::Open
                    &&& after.directory == before.directory
                    &&& after.ledger.dom().contains(uid.value)
                    &&& after.ledger[uid.value].lifecycle == StreamLifecycle::Closed
                    &&& after.ledger[uid.value].content_type
                        == before.ledger[uid.value].content_type
                    &&& after.ledger[uid.value].expiry == before.ledger[uid.value].expiry
                    &&& after.ledger[uid.value].created_at == before.ledger[uid.value].created_at
                    &&& differ_only_at(before, after, path.bytes@, uid.value)
                },
                OperationFact::StreamDeleted { path, uid } => {
                    &&& before.directory.dom().contains(path.bytes@)
                    &&& before.directory[path.bytes@] == DirectoryEntry::Live(uid)
                    &&& after.directory.dom().contains(path.bytes@)
                    &&& after.directory[path.bytes@] == DirectoryEntry::Tombstone(uid)
                    &&& !after.ledger.dom().contains(uid.value)
                    &&& differ_only_at(before, after, path.bytes@, uid.value)
                },
            }
        },
{
}

// The state's operations

/// What a decision settles, if it settles anything.
pub open spec fn settled(decision: AdmissionDecision) -> Option<Completion> {
    match decision {
        AdmissionDecision::Settled(completion) => Some(completion),
        AdmissionDecision::Queued => None,
    }
}

/// Admitting a command decides it for its own waiter.
#[verifier::rlimit(50)]
pub proof fn law_admission_decides_commands(
    state: &mut WriterState,
    envelope: CommandEnvelope,
    decision: AdmissionDecision,
)
    requires
        old(state).wf(),
        call_ensures(WriterState::admit_command, (state, envelope), decision),
    ensures
        match envelope {
            CommandEnvelope::Create { command, reply } => create_is_decided(
                old(state)@,
                command@,
                reply,
                (final(state)@, settled(decision)),
            ) && command@.path == command.path.bytes@ && command@.content_type
                == command.content_type.text@ && command@.expiry == command.expiry
                && command@.lifecycle == command.lifecycle,
            CommandEnvelope::Close { path, reply } => close_is_decided(
                old(state)@,
                path.bytes@,
                reply,
                (final(state)@, settled(decision)),
            ),
            CommandEnvelope::Delete { path, reply } => delete_is_decided(
                old(state)@,
                path.bytes@,
                reply,
                (final(state)@, settled(decision)),
            ),
        },
{
    match envelope {
        CommandEnvelope::Create { command, reply } => {
            crate::engine::writer_laws::law_commands_reach_their_waiter(
                old(state)@,
                command@,
                command@.path,
                reply,
            );
        },
        CommandEnvelope::Close { path, reply } => {
            let command = crate::engine::admission::CreateModel {
                path: path@,
                content_type: Seq::empty(),
                expiry: ExpiryPolicy::Never,
                lifecycle: StreamLifecycle::Open,
            };
            crate::engine::writer_laws::law_commands_reach_their_waiter(
                old(state)@,
                command,
                path@,
                reply,
            );
        },
        CommandEnvelope::Delete { path, reply } => {
            let command = crate::engine::admission::CreateModel {
                path: path@,
                content_type: Seq::empty(),
                expiry: ExpiryPolicy::Never,
                lifecycle: StreamLifecycle::Open,
            };
            crate::engine::writer_laws::law_commands_reach_their_waiter(
                old(state)@,
                command,
                path@,
                reply,
            );
        },
    }
}

/// The candidate stands for the log object: its place, and bytes that are read back as
/// the object by every grammar that accepts its facts.
pub proof fn law_candidates_are_read_back(
    candidate: EncodedWal,
    object: WalModel,
    accepts: spec_fn(ProtocolText) -> bool,
)
    requires
        object.wf(),
        candidate.carries(object),
        object.facts matches Some(facts) ==> crate::domain::wal_codec::facts_accepted(
            facts,
            accepts,
        ),
    ensures
        candidate.partition == object.partition,
        candidate.batch == object.batch,
        crate::domain::wal_codec::spec_decode_wal(
            object.identity(),
            crate::domain::candidate::shared_bytes(candidate.bytes),
            accepts,
        ) == Ok::<WalModel, crate::domain::archive::DecodeError>(object),
        object.identity().partition == object.partition && object.identity().batch == object.batch,
{
    crate::domain::wal_codec::law_wal_round_trips(
        object,
        crate::domain::candidate::shared_bytes(candidate.bytes),
        accepts,
    );
}

/// Taking the barrier gives one RUN with everything that waits, or just the replies.
pub proof fn law_flights_carry_what_waits(state: &mut WriterState, decision: FlightDecision)
    requires
        old(state).wf(),
        call_ensures(WriterState::take_flight, (state,), decision),
    ensures
        match decision {
            FlightDecision::Run(candidate) => {
                let run = WalModel {
                    partition: old(state).seal.partition,
                    batch: old(state).next_batch,
                    owner: old(state).claim.owner,
                    facts: Some(
                        crate::engine::writer_state::barrier_facts(old(state)@.pending),
                    ),
                };
                &&& candidate.carries(run)
                &&& barrier_is_taken(old(state)@, final(state)@, BarrierModel::Run(run))
            },
            FlightDecision::Replies(replies) => barrier_is_taken(
                old(state)@,
                final(state)@,
                BarrierModel::Replies(replies@),
            ),
            FlightDecision::Idle => barrier_is_taken(
                old(state)@,
                final(state)@,
                BarrierModel::Idle,
            ),
        },
{
    crate::engine::writer_laws::law_barriers_are_taken_and_folded(old(state)@);
}

/// A durable RUN releases the completions of its own commands, in their order, and the
/// durable state with its facts.
pub proof fn law_durability_releases_the_replies(
    state: &mut WriterState,
    batch: BatchId,
    released: DurableWal,
)
    requires
        old(state).wf(),
        old(state)@.flight matches Some(flight) && flight.batch == batch,
        call_ensures(WriterState::record_wal_durable, (state, batch), released),
    ensures
        flight_is_durable(old(state)@, final(state)@),
        released.forest@ == final(state)@.durable,
        released.replies@.len() == old(state)@.flight->0.commands.len(),
        forall|i: int|
            0 <= i < released.replies@.len() ==> #[trigger] released.replies@[i]
                == old(state)@.flight->0.commands[i].completion,
{
    crate::engine::writer_laws::law_barriers_are_taken_and_folded(old(state)@);
}

/// The same writer but for its flight and its active checkpoint.
pub open spec fn same_but_work(before: WriterModel, after: WriterModel) -> bool {
    &&& after.claim == before.claim
    &&& after.seal == before.seal
    &&& after.base == before.base
    &&& after.admitted == before.admitted
    &&& after.durable == before.durable
    &&& after.durable_batch == before.durable_batch
    &&& after.next_batch == before.next_batch
    &&& after.pending == before.pending
    &&& after.checkpoint_attempt == before.checkpoint_attempt
    &&& after.last_checkpoint_attempted_cut == before.last_checkpoint_attempted_cut
    &&& after.retry_checkpoint_at == before.retry_checkpoint_at
}

/// A discarded flight is gone, and nothing else is.
pub proof fn law_discards_drop_the_flight_only(state: &mut WriterState, batch: BatchId)
    requires
        call_ensures(WriterState::discard_wal_flight, (state, batch), ()),
    ensures
        final(state)@.flight is None,
        final(state)@.active_checkpoint == old(state)@.active_checkpoint,
        same_but_work(old(state)@, final(state)@),
{
}

/// An abandoned checkpoint is not active any more, and nothing else changes.
pub proof fn law_abandoned_checkpoints_are_forgotten(
    state: &mut WriterState,
    ticket: CheckpointTicket,
)
    requires
        call_ensures(WriterState::abandon_checkpoint, (state, ticket), ()),
    ensures
        final(state)@.active_checkpoint is None,
        final(state)@.flight == old(state)@.flight,
        same_but_work(old(state)@, final(state)@),
{
}

/// A checkpoint is planned exactly when it is due, of the durable state at the durable
/// head, from the Seal and the base that it advances.
pub proof fn law_planned_checkpoints_are_of_the_durable_head(
    state: &mut WriterState,
    plan: Option<CheckpointPlan>,
)
    requires
        old(state).wf(),
        old(state).checkpoint_attempt < u64::MAX,
        call_ensures(WriterState::take_checkpoint, (state,), plan),
    ensures
        plan is Some <==> is_due(old(state)@),
        plan is None ==> final(state)@ == old(state)@,
        plan matches Some(plan) ==> {
            &&& checkpoint_is_started(old(state)@, final(state)@, plan.ticket)
            &&& plan.input.source@ == old(state)@.seal
            &&& plan.input.base@ == old(state)@.base
            &&& plan.input.snapshot@ == old(state)@.durable
            &&& plan.input.cut == old(state)@.durable_batch
            &&& plan.input.attempt == plan.ticket.attempt
        },
{
    crate::engine::writer_laws::law_checkpoints_are_due_by_span(old(state)@);
}

/// A Seal is where a checkpoint leads exactly when it is the writer's partition's next
/// generation, cut where the ticket is, owned by this writer.
pub proof fn law_expected_successors(
    state: WriterState,
    ticket: CheckpointTicket,
    successor: Seal,
    expected: bool,
)
    requires
        call_ensures(WriterState::expects_successor, (&state, ticket, &successor), expected),
    ensures
        expected <==> {
            &&& successor.partition == state.seal.partition
            &&& successor.generation.value == state.seal.generation.value + 1
            &&& successor.replay == (WalReplayPoint::Through {
                batch: ticket.cut,
                owner: state.claim.owner,
            })
        },
{
}

/// An installed checkpoint makes its successor and its snapshot the Seal and the base, and
/// leaves what is admitted, durable, waiting and in flight.
pub proof fn law_installed_checkpoints_advance_the_base(
    state: &mut WriterState,
    ticket: CheckpointTicket,
    install: CheckpointInstall,
    installed: InstalledCheckpoint,
)
    requires
        call_ensures(WriterState::install_checkpoint, (state, ticket, install), installed),
    ensures
        final(state)@.seal == install.successor@,
        final(state)@.base == install.snapshot@,
        final(state)@.active_checkpoint is None,
        final(state)@.claim == old(state)@.claim,
        final(state)@.admitted == old(state)@.admitted,
        final(state)@.durable == old(state)@.durable,
        final(state)@.durable_batch == old(state)@.durable_batch,
        final(state)@.next_batch == old(state)@.next_batch,
        final(state)@.pending == old(state)@.pending,
        final(state)@.flight == old(state)@.flight,
        final(state)@.checkpoint_attempt == old(state)@.checkpoint_attempt,
        final(state)@.last_checkpoint_attempted_cut == old(state)@.last_checkpoint_attempted_cut,
        final(state)@.retry_checkpoint_at == old(state)@.retry_checkpoint_at,
        installed.source@ == old(state)@.seal,
        installed.successor@ == install.successor@,
        installed.forest@ == old(state)@.durable,
{
}

/// A new writer has its claim, Seal, base and recovered state, and nothing else to do.
pub proof fn law_new_writers_are_quiet(
    claim: AuthoredClaim,
    seal: Seal,
    base: Forest,
    forest: Forest,
    durable_batch: BatchId,
    next_batch: BatchId,
    state: WriterState,
    bytes: usize,
    quiet: bool,
)
    requires
        call_ensures(
            WriterState::new,
            (claim, seal, base, forest, durable_batch, next_batch),
            state,
        ),
        call_ensures(WriterState::is_quiescent, (&state,), quiet),
        call_ensures(WriterState::buffered_bytes, (&state,), bytes),
    ensures
        state@.claim == claim,
        state@.seal == seal@,
        state@.base == base@,
        state@.admitted == forest@,
        state@.durable == forest@,
        state@.durable_batch == durable_batch,
        state@.next_batch == next_batch,
        state@.pending.len() == 0,
        state@.flight is None,
        state@.checkpoint_attempt == 0,
        state@.last_checkpoint_attempted_cut is None,
        state@.retry_checkpoint_at is None,
        state@.active_checkpoint is None,
        quiet,
        bytes == 0,
{
}

/// A writer is quiet exactly when nothing is in flight and nobody waits.
pub proof fn law_quiet_writers(
    state: WriterState,
    quiet: bool,
    flying: bool,
    ticket: Option<CheckpointTicket>,
    durable: &Forest,
)
    requires
        call_ensures(WriterState::is_quiescent, (&state,), quiet),
        call_ensures(WriterState::has_flight, (&state,), flying),
        call_ensures(WriterState::active_checkpoint, (&state,), ticket),
        call_ensures(WriterState::durable_forest, (&state,), durable),
    ensures
        quiet <==> state.flight is None && state.pending@.len() == 0,
        flying <==> state.flight is Some,
        ticket == state.active_checkpoint,
        *durable == state.durable,
{
}

// Steps

/// A step does what it says: it sends just the said replies, publishes just the said view,
/// starts just the said work and ends in the said way.
pub proof fn law_steps_do_what_they_say(step: WriterStep, said: StepModel)
    requires
        step.does(said),
    ensures
        step.replies@ == said.replies,
        step.view is Some <==> said.view is Some,
        step.view matches Some(view) ==> said.view == Some(
            (view.generation, view.replay, view.forest@),
        ),
        step.collect is Some <==> said.collect is Some,
        step.collect matches Some(seals) ==> said.collect == Some((seals.0@, seals.1@)),
        step.run is Some <==> said.run is Some,
        step.run matches Some(candidate) ==> candidate.carries(said.run->0),
        step.checkpoint is Some <==> said.checkpoint is Some,
        step.checkpoint matches Some(plan) ==> {
            let writer = said.checkpoint->0;
            &&& plan.ticket.source == writer.seal.generation
            &&& plan.ticket.cut == writer.durable_batch
            &&& plan.ticket.attempt.owner_claim == writer.claim.generation
            &&& plan.ticket.attempt.local_counter == writer.checkpoint_attempt
            &&& plan.input.source@ == writer.seal
            &&& plan.input.base@ == writer.base
            &&& plan.input.snapshot@ == writer.durable
            &&& plan.input.cut == writer.durable_batch
            &&& plan.input.attempt == plan.ticket.attempt
        },
        step.exit is Some <==> said.exit is Some,
        step.exit matches Some(exit) ==> match exit {
            WriterExit::Shutdown => said.exit->0 is Shutdown,
            WriterExit::Fenced { batch } => said.exit->0 == ExitModel::Fenced(batch),
            WriterExit::Poisoned { batch, detail } => said.exit->0 == ExitModel::Poisoned(
                batch,
                detail@,
            ),
            WriterExit::Contradiction { batch, detail } => said.exit->0
                == ExitModel::Contradiction(batch, detail@),
        },
{
}

/// One event of a writer: what it does itself, and unless that ends the writer, a flush
/// of the whole barrier where one is due, then a checkpoint where one is due and the
/// writer is not closing, and then the end of a closing writer that has nothing left.
/// Nothing else is sent, started or published.
#[verifier::rlimit(50)]
pub proof fn law_events_are_handled_in_turn(
    machine: &mut WriterMachine,
    spaced: bool,
    event: WriterEvent,
    step: WriterStep,
)
    requires
        old(machine).wf(),
        old(machine)@.expects(event),
        old(machine).state.checkpoint_attempt < u64::MAX,
        call_ensures(WriterMachine::handle, (machine, spaced, event), step),
    ensures
        ({
            let (taken, said) = old(machine)@.taken(event);
            let after = final(machine)@;
            &&& final(machine).options == old(machine).options
            &&& after.draining == taken.draining
            &&& step.view is Some <==> said.view is Some
            &&& step.view matches Some(view) ==> said.view == Some(
                (view.generation, view.replay, view.forest@),
            )
            &&& step.collect is Some <==> said.collect is Some
            &&& step.collect matches Some(seals) ==> said.collect == Some((seals.0@, seals.1@))
            &&& if said.exit is Some {
                &&& after == taken
                &&& step.replies@ == said.replies
                &&& step.run is None && step.checkpoint is None
                &&& step.exit matches Some(exit) && exit.said() == said.exit->0
            } else {
                let flushes = taken.writer.flight is None && taken.writer.pending.len() > 0 && (
                spaced || taken.draining || taken.writer.pending.len() >= 4096
                    || crate::domain::wal::facts_estimate(
                    crate::engine::writer_state::barrier_facts(taken.writer.pending),
                ) >= old(machine).options.flush_buffer_bytes);
                let flown = if flushes {
                    taken.writer.take_flight().0
                } else {
                    taken.writer
                };
                let starts = !taken.draining && is_due(flown);
                &&& step.run is Some <==> flushes && taken.writer.take_flight().1 is Run
                &&& step.run matches Some(candidate) ==> {
                    &&& candidate.partition == taken.writer.seal.partition
                    &&& candidate.batch == taken.writer.next_batch
                }
                &&& flushes && !(taken.writer.take_flight().1 is Run) ==> step.replies@
                    == said.replies + crate::engine::writer_state::barrier_replies(
                    taken.writer.pending,
                )
                &&& !flushes || taken.writer.take_flight().1 is Run ==> step.replies@
                    == said.replies
                &&& step.checkpoint is Some <==> starts
                &&& step.checkpoint matches Some(plan) ==> checkpoint_is_started(
                    flown,
                    after.writer,
                    plan.ticket,
                ) && plan.input.snapshot@ == flown.durable && plan.input.base@ == flown.base
                    && plan.input.source@ == flown.seal
                &&& !starts ==> after.writer == flown
                &&& step.exit is Some <==> taken.draining && after.writer.flight is None
                    && after.writer.pending.len() == 0 && after.writer.active_checkpoint is None
                &&& step.exit matches Some(exit) ==> exit is Shutdown
            }
        }),
{
    let (taken, said) = old(machine)@.taken(event);
    if said.exit is None {
        let (flushed, next) = taken.flushed(spaced, said);
        crate::engine::writer_laws::law_barriers_are_taken_and_folded(taken.writer);
        if !taken.draining {
            lemma_due(flushed.writer);
        }
        assert(flushed.writer.checkpoint_due() <==> is_due(flushed.writer));
    }
}

proof fn lemma_due(writer: WriterModel)
    ensures
        writer.checkpoint_due() <==> is_due(writer),
{
}

/// Only the cancelled preparation of a checkpoint may bring no result; every other effect
/// that brings none is named by its own key.
pub proof fn law_lost_effects_are_named(
    key: EffectKey,
    joined: Result<WriterEvent, TaskFailure>,
    event: Result<WriterEvent, EffectKey>,
)
    requires
        call_ensures(joined_event, (key, joined), event),
    ensures
        joined matches Ok(brought) ==> event == Ok::<WriterEvent, EffectKey>(brought),
        joined matches Err(failure) ==> if failure is Cancelled && key is CheckpointPreparation {
            event matches Ok(WriterEvent::CheckpointCancelled { ticket }) && ticket
                == key->CheckpointPreparation_ticket
        } else {
            event == Err::<WriterEvent, EffectKey>(key)
        },
{
}

/// A collection's answer changes its phase only.
pub proof fn law_collections_keep_their_plan(
    collection: &mut Collection,
    event: CollectionEvent,
)
    requires
        call_ensures(Collection::handle, (collection, event), ()),
    ensures
        final(collection).phase == old(collection).after(event),
        final(collection).partition == old(collection).partition,
        final(collection).first == old(collection).first,
        final(collection).cut == old(collection).cut,
        final(collection).tables == old(collection).tables,
{
}

/// A published view is what it was made of.
pub proof fn law_views_say_their_fields(
    generation: crate::domain::coordinate::SealGeneration,
    replay: WalReplayPoint,
    forest: Forest,
    view: PublishedView,
    path: crate::domain::directory::DirectoryKey,
    entry: Option<DirectoryEntry>,
)
    requires
        call_ensures(PublishedView::new, (generation, replay, forest), view),
        call_ensures(PublishedView::resolve, (&view, &path), entry),
    ensures
        view.generation == generation,
        view.replay == replay,
        view.forest == forest,
        entry is Some <==> forest@.directory.dom().contains(path.bytes@),
        entry matches Some(found) ==> found == forest@.directory[path.bytes@],
{
}

} // verus!
