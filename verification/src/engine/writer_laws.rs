//! What the writer does with commands, RUNs and checkpoints, said of its parts.

use vstd::prelude::*;

use crate::domain::coordinate::BatchId;
use crate::domain::directory::DirectoryEntry;
use crate::domain::protocol::StreamLifecycle;
use crate::domain::seal::{SealModel, WalReplayPoint};
use crate::domain::wal::FactModel;
use crate::engine::admission::{AdmissionRefusal, CreateModel};
use crate::engine::checkpoint::{CheckpointInstall, CheckpointTicket};
use crate::engine::completion::CheckpointCompletion;
use crate::engine::forest::{FoldContradiction, ForestModel};
use crate::engine::service::{
    close_outcome, command_outcome, open_error, stream_error, stream_outcome, CloseOutcome,
    CommandError, OpenError, StreamError, WriterExit,
};
use crate::engine::store::{TypedStoreError, WalEstablishment};
use crate::engine::stream_laws::{differ_only_at, is_configured};
use crate::engine::writer_effects::{settle_checkpoint, settle_wal};
use crate::engine::writer_machine::{MachineModel, WriterEvent};
use crate::engine::writer_state::{
    BarrierModel, CloseStreamOutcome, Completion, CreateOutcome, EnvelopeModel, PendingModel,
    WriterModel,
};

verus! {

/// One more RUN and the FENCE of the next claimant fit the thousand and twenty-four
/// coordinates behind the Seal's cut.
pub open spec fn has_room(writer: WriterModel) -> bool {
    let covered = match writer.seal.replay {
        WalReplayPoint::Genesis => 0,
        WalReplayPoint::Through { batch, .. } => batch.value,
    };
    &&& writer.next_batch.value < u64::MAX
    &&& covered < writer.next_batch.value
    &&& writer.next_batch.value + 1 - covered <= 1024
}

/// Nothing but the retry of a checkpoint differs.
pub open spec fn same_but_retry(before: WriterModel, after: WriterModel) -> bool {
    &&& after.claim == before.claim
    &&& after.seal == before.seal
    &&& after.base == before.base
    &&& after.admitted == before.admitted
    &&& after.durable == before.durable
    &&& after.durable_batch == before.durable_batch
    &&& after.next_batch == before.next_batch
    &&& after.pending == before.pending
    &&& after.flight == before.flight
    &&& after.checkpoint_attempt == before.checkpoint_attempt
    &&& after.last_checkpoint_attempted_cut == before.last_checkpoint_attempted_cut
    &&& after.active_checkpoint == before.active_checkpoint
}

/// The command was refused or answered at once: the writer is as it was.
pub open spec fn settles(
    before: WriterModel,
    decided: (WriterModel, Option<Completion>),
    completion: Completion,
) -> bool {
    &&& decided.1 == Some(completion)
    &&& same_but_retry(before, decided.0)
    &&& decided.0.retry_checkpoint_at == before.retry_checkpoint_at
}

/// The command was shed for want of log coordinates: a checkpoint of the durable head
/// may be tried again.
pub open spec fn sheds(
    before: WriterModel,
    decided: (WriterModel, Option<Completion>),
    completion: Completion,
) -> bool {
    &&& decided.1 == Some(completion)
    &&& same_but_retry(before, decided.0)
    &&& decided.0.retry_checkpoint_at == Some(before.durable_batch)
}

/// The command waits as the last one, with its fact, if it has one, and its completion.
pub open spec fn waits(
    before: WriterModel,
    decided: (WriterModel, Option<Completion>),
    fact: Option<FactModel>,
    completion: Completion,
) -> bool {
    let after = decided.0;
    &&& decided.1 is None
    &&& after.pending.len() == before.pending.len() + 1
    &&& forall|i: int|
        0 <= i < before.pending.len() ==> #[trigger] after.pending[i] == before.pending[i]
    &&& after.pending[before.pending.len() as int].fact == fact
    &&& after.pending[before.pending.len() as int].completion == completion
    &&& after.claim == before.claim
    &&& after.seal == before.seal
    &&& after.base == before.base
    &&& after.durable == before.durable
    &&& after.durable_batch == before.durable_batch
    &&& after.next_batch == before.next_batch
    &&& after.flight == before.flight
    &&& after.checkpoint_attempt == before.checkpoint_attempt
    &&& after.last_checkpoint_attempted_cut == before.last_checkpoint_attempted_cut
    &&& after.retry_checkpoint_at == before.retry_checkpoint_at
    &&& after.active_checkpoint == before.active_checkpoint
    &&& fact is None ==> after.admitted == before.admitted
}

/// A create is answered to its own waiter: shed behind a full barrier; answered as
/// existing when the path's stream is configured as asked for, at once or, behind a
/// flight, after it; refused as occupied or for want of capacity; shed for want of log
/// coordinates; and else it waits with the fact that creates what was asked for, and the
/// admitted state has that stream, dated with the next coordinate.
pub open spec fn create_is_decided(
    writer: WriterModel,
    command: CreateModel,
    reply: u64,
    decided: (WriterModel, Option<Completion>),
) -> bool {
    let occupied = writer.admitted.directory.dom().contains(command.path);
    let count = writer.admitted.directory.dom().len();
    let same = is_configured(
        writer.admitted,
        command.path,
        command.content_type,
        command.expiry,
        command.lifecycle,
    );
    let exists_already = Completion::Create {
        outcome: Ok(CreateOutcome::AlreadyExists),
        reply,
    };
    let refused = |refusal: AdmissionRefusal|
        Completion::Create { outcome: Err(refusal), reply };
    if writer.pending.len() == 4096 {
        settles(writer, decided, refused(AdmissionRefusal::Overloaded))
    } else if same && writer.flight is None {
        settles(writer, decided, exists_already)
    } else if same {
        waits(writer, decided, None, exists_already)
    } else if occupied {
        settles(writer, decided, refused(AdmissionRefusal::PathOccupied))
    } else if count >= 10_000_000 {
        settles(writer, decided, refused(AdmissionRefusal::PathCapacityExhausted))
    } else if !has_room(writer) {
        sheds(writer, decided, refused(AdmissionRefusal::Overloaded))
    } else {
        let after = decided.0.admitted;
        let uid = crate::domain::coordinate::StreamUid { value: (count + 1) as u64 };
        &&& waits(
            writer,
            decided,
            Some(
                FactModel::StreamCreated {
                    path: command.path,
                    uid,
                    content_type: command.content_type,
                    expiry: command.expiry,
                    lifecycle: command.lifecycle,
                },
            ),
            Completion::Create { outcome: Ok(CreateOutcome::Created), reply },
        )
        &&& is_configured(
            after,
            command.path,
            command.content_type,
            command.expiry,
            command.lifecycle,
        )
        &&& after.directory[command.path] == DirectoryEntry::Live(uid)
        &&& after.ledger[uid.value].created_at == writer.next_batch
        &&& differ_only_at(writer.admitted, after, command.path, uid.value)
    }
}

/// A close is answered to its own waiter: shed behind a full barrier; refused where the
/// path has no live stream; answered as closed where it is, at once or, behind a flight,
/// after it; shed for want of log coordinates; and else it waits with the fact that
/// closes the path's stream.
pub open spec fn close_is_decided(
    writer: WriterModel,
    path: Seq<u8>,
    reply: u64,
    decided: (WriterModel, Option<Completion>),
) -> bool {
    let entry = writer.admitted.directory[path];
    let live = writer.admitted.directory.dom().contains(path) && entry is Live;
    let uid = entry->Live_0;
    let record = writer.admitted.ledger[uid.value];
    let already = Completion::Close {
        outcome: Ok(CloseStreamOutcome::AlreadyClosed),
        reply,
    };
    let refused = |refusal: AdmissionRefusal|
        Completion::Close { outcome: Err(refusal), reply };
    if writer.pending.len() == 4096 {
        settles(writer, decided, refused(AdmissionRefusal::Overloaded))
    } else if !live {
        settles(writer, decided, refused(AdmissionRefusal::PathNotLive))
    } else if record.lifecycle == StreamLifecycle::Closed && writer.flight is None {
        settles(writer, decided, already)
    } else if record.lifecycle == StreamLifecycle::Closed {
        waits(writer, decided, None, already)
    } else if !has_room(writer) {
        sheds(writer, decided, refused(AdmissionRefusal::Overloaded))
    } else {
        let after = decided.0.admitted;
        &&& waits(
            writer,
            decided,
            Some(FactModel::StreamClosed { path, uid }),
            Completion::Close { outcome: Ok(CloseStreamOutcome::Closed), reply },
        )
        &&& after.directory == writer.admitted.directory
        &&& after.ledger[uid.value].lifecycle == StreamLifecycle::Closed
        &&& after.ledger[uid.value].content_type == record.content_type
        &&& after.ledger[uid.value].expiry == record.expiry
        &&& after.ledger[uid.value].created_at == record.created_at
        &&& differ_only_at(writer.admitted, after, path, uid.value)
    }
}

/// A delete is answered to its own waiter: shed behind a full barrier; refused where the
/// path has no live stream; shed for want of log coordinates; and else it waits with the
/// fact that deletes the path's stream, whatever that stream's record says.
pub open spec fn delete_is_decided(
    writer: WriterModel,
    path: Seq<u8>,
    reply: u64,
    decided: (WriterModel, Option<Completion>),
) -> bool {
    let entry = writer.admitted.directory[path];
    let live = writer.admitted.directory.dom().contains(path) && entry is Live;
    let uid = entry->Live_0;
    let refused = |refusal: AdmissionRefusal|
        Completion::Delete { outcome: Err(refusal), reply };
    if writer.pending.len() == 4096 {
        settles(writer, decided, refused(AdmissionRefusal::Overloaded))
    } else if !live {
        settles(writer, decided, refused(AdmissionRefusal::PathNotLive))
    } else if !has_room(writer) {
        sheds(writer, decided, refused(AdmissionRefusal::Overloaded))
    } else {
        let after = decided.0.admitted;
        &&& waits(
            writer,
            decided,
            Some(FactModel::StreamDeleted { path, uid }),
            Completion::Delete { outcome: Ok(()), reply },
        )
        &&& after.directory.dom().contains(path)
        &&& after.directory[path] == DirectoryEntry::Tombstone(uid)
        &&& !after.ledger.dom().contains(uid.value)
        &&& differ_only_at(writer.admitted, after, path, uid.value)
    }
}

/// Every command reaches its own waiter, decided by what is admitted, by whether a RUN is
/// in flight and by the room that is left.
#[verifier::rlimit(50)]
pub proof fn law_commands_reach_their_waiter(
    writer: WriterModel,
    command: CreateModel,
    path: Seq<u8>,
    reply: u64,
)
    requires
        writer.wf(),
    ensures
        create_is_decided(
            writer,
            command,
            reply,
            writer.after_command(EnvelopeModel::Create { command, reply }),
        ),
        close_is_decided(
            writer,
            path,
            reply,
            writer.after_command(EnvelopeModel::Close { path, reply }),
        ),
        delete_is_decided(
            writer,
            path,
            reply,
            writer.after_command(EnvelopeModel::Delete { path, reply }),
        ),
{
    assert(writer.admitted.live(path) matches Some(uid) ==> writer.admitted.ledger.dom().contains(
        uid.value,
    ));
}

// Barriers and RUNs

/// A barrier's facts are its commands' facts in admission order: none are made of no
/// commands, a command without a fact adds none, one with a fact adds just that, and two
/// stretches of commands have the facts of the first and then those of the second.
pub proof fn law_barriers_keep_admission_order(
    first: Seq<PendingModel>,
    second: Seq<PendingModel>,
    command: PendingModel,
)
    ensures
        crate::engine::writer_state::barrier_facts(Seq::<PendingModel>::empty()) == Seq::<
            FactModel,
        >::empty(),
        command.fact is None ==> crate::engine::writer_state::barrier_facts(seq![command]) == Seq::<
            FactModel,
        >::empty(),
        command.fact matches Some(fact) ==> crate::engine::writer_state::barrier_facts(
            seq![command],
        ) == seq![fact],
        crate::engine::writer_state::barrier_facts(first + second)
            == crate::engine::writer_state::barrier_facts(first)
            + crate::engine::writer_state::barrier_facts(second),
        crate::engine::writer_state::barrier_replies(first).len() == first.len(),
        forall|i: int|
            0 <= i < first.len() ==> #[trigger] crate::engine::writer_state::barrier_replies(first)[i]
                == first[i].completion,
    decreases second.len(),
{
    let none = Seq::<PendingModel>::empty();
    assert(seq![command].drop_last() =~= none);
    assert(crate::engine::writer_state::barrier_facts(none) =~= Seq::<FactModel>::empty());
    if let Some(fact) = command.fact {
        assert(crate::engine::writer_state::barrier_facts(seq![command]) =~= seq![fact]);
    }
    if second.len() == 0 {
        assert(first + second =~= first);
        assert(crate::engine::writer_state::barrier_facts(first)
            + crate::engine::writer_state::barrier_facts(second)
            =~= crate::engine::writer_state::barrier_facts(first));
    } else {
        law_barriers_keep_admission_order(first, second.drop_last(), command);
        assert((first + second).drop_last() =~= first + second.drop_last());
        assert((first + second).last() == second.last());
        if let Some(fact) = second.last().fact {
            assert(crate::engine::writer_state::barrier_facts(first)
                + crate::engine::writer_state::barrier_facts(second.drop_last()).push(fact) =~= (
            crate::engine::writer_state::barrier_facts(first)
                + crate::engine::writer_state::barrier_facts(second.drop_last())).push(fact));
        }
    }
}

/// Taking the barrier: nothing where a RUN is in flight or nobody waits; the waiting
/// replies, and no coordinate, where no command has a fact; else a RUN of this partition
/// and this claim's owner at the next coordinate with all the waiting facts, which is
/// then in flight with all its commands.
pub open spec fn barrier_is_taken(
    writer: WriterModel,
    after: WriterModel,
    barrier: BarrierModel,
) -> bool {
    let facts = crate::engine::writer_state::barrier_facts(writer.pending);
    &&& after.claim == writer.claim
    &&& after.seal == writer.seal
    &&& after.base == writer.base
    &&& after.admitted == writer.admitted
    &&& after.durable == writer.durable
    &&& after.durable_batch == writer.durable_batch
    &&& after.checkpoint_attempt == writer.checkpoint_attempt
    &&& after.last_checkpoint_attempted_cut == writer.last_checkpoint_attempted_cut
    &&& after.retry_checkpoint_at == writer.retry_checkpoint_at
    &&& after.active_checkpoint == writer.active_checkpoint
    &&& if writer.flight is Some || writer.pending.len() == 0 {
        barrier is Idle && after == writer
    } else if facts.len() == 0 {
        &&& barrier matches BarrierModel::Replies(replies) && {
            &&& replies.len() == writer.pending.len()
            &&& forall|i: int|
                0 <= i < replies.len() ==> #[trigger] replies[i]
                    == writer.pending[i].completion
        }
        &&& after.pending.len() == 0
        &&& after.flight is None
        &&& after.next_batch == writer.next_batch
    } else {
        &&& barrier matches BarrierModel::Run(run) && {
            &&& run.partition == writer.seal.partition
            &&& run.batch == writer.next_batch
            &&& run.owner == writer.claim.owner
            &&& run.facts == Some(facts)
        }
        &&& after.pending.len() == 0
        &&& after.next_batch.value == writer.next_batch.value + 1
        &&& after.flight matches Some(flight) && flight.batch == writer.next_batch
            && flight.commands == writer.pending
    }
}

/// Durability of the RUN in flight moves the durable head to its coordinate and folds its
/// facts, dated with that coordinate, into the durable state; nothing else changes.
pub open spec fn flight_is_durable(writer: WriterModel, after: WriterModel) -> bool {
    let flight = writer.flight->0;
    &&& after.durable_batch == flight.batch
    &&& after.durable_batch.value == writer.durable_batch.value + 1
    &&& after.flight is None
    &&& writer.durable.fold_all(
        flight.batch,
        crate::engine::writer_state::barrier_facts(flight.commands),
    ) == Ok::<ForestModel, FoldContradiction>(after.durable)
    &&& after.claim == writer.claim
    &&& after.seal == writer.seal
    &&& after.base == writer.base
    &&& after.admitted == writer.admitted
    &&& after.next_batch == writer.next_batch
    &&& after.pending == writer.pending
    &&& after.checkpoint_attempt == writer.checkpoint_attempt
    &&& after.last_checkpoint_attempted_cut == writer.last_checkpoint_attempted_cut
    &&& after.retry_checkpoint_at == writer.retry_checkpoint_at
    &&& after.active_checkpoint == writer.active_checkpoint
}

/// The barrier is taken whole, and its durability folds all its facts.
pub proof fn law_barriers_are_taken_and_folded(writer: WriterModel)
    requires
        writer.wf(),
    ensures
        barrier_is_taken(writer, writer.take_flight().0, writer.take_flight().1),
        writer.flight is Some ==> flight_is_durable(writer, writer.record_durable()),
{
}

/// A create that a quiet writer admits is, once its RUN is durable, exactly what was
/// asked for: the path's stream has the content type, the expiry and the lifecycle of
/// the command, is dated with the RUN's coordinate, and the waiter learns that it was
/// created.
#[verifier::rlimit(50)]
pub proof fn law_acknowledged_creates_are_as_asked_for(
    writer: WriterModel,
    command: CreateModel,
    reply: u64,
)
    requires
        writer.wf(),
        writer.is_quiescent(),
        writer.after_command(EnvelopeModel::Create { command, reply }).1 is None,
    ensures
        ({
            let admitted = writer.after_command(EnvelopeModel::Create { command, reply }).0;
            let (flying, barrier) = admitted.take_flight();
            let after = flying.record_durable();
            &&& barrier is Run
            &&& crate::engine::writer_state::barrier_replies(flying.flight->0.commands) == seq![
                Completion::Create { outcome: Ok(CreateOutcome::Created), reply },
            ]
            &&& is_configured(
                after.durable,
                command.path,
                command.content_type,
                command.expiry,
                command.lifecycle,
            )
            &&& after.durable.directory[command.path] matches DirectoryEntry::Live(uid)
                && after.durable.ledger[uid.value].created_at == writer.next_batch
            &&& after.durable_batch == writer.next_batch
        }),
{
    let admitted = writer.after_command(EnvelopeModel::Create { command, reply }).0;
    let (flying, barrier) = admitted.take_flight();
    law_commands_reach_their_waiter(writer, command, command.path, reply);
    let pending = admitted.pending;
    assert(pending =~= seq![pending[0]]);
    law_barriers_keep_admission_order(Seq::empty(), Seq::empty(), pending[0]);
    let fact = pending[0].fact->0;
    assert(crate::engine::writer_state::barrier_facts(pending) == seq![fact]);
    assert(seq![fact].drop_last() =~= Seq::<FactModel>::empty());
    assert(writer.durable.fold_all(writer.next_batch, Seq::<FactModel>::empty()) == Ok::<
        ForestModel,
        FoldContradiction,
    >(writer.durable));
    assert(crate::engine::writer_state::barrier_facts(writer.pending) =~= Seq::<
        FactModel,
    >::empty());
    assert(writer.admitted == writer.durable);
    assert(crate::engine::writer_state::barrier_replies(flying.flight->0.commands) =~= seq![
        Completion::Create { outcome: Ok(CreateOutcome::Created), reply },
    ]);
}

// Checkpoints

/// A checkpoint is due exactly when none is active, the durable head is at least five
/// hundred and twelve coordinates past the Seal's cut, and that head was not tried yet
/// or is armed for another try.
pub open spec fn is_due(writer: WriterModel) -> bool {
    let covered = match writer.seal.replay {
        WalReplayPoint::Genesis => 0,
        WalReplayPoint::Through { batch, .. } => batch.value,
    };
    let tried = writer.last_checkpoint_attempted_cut matches Some(cut) && cut.value
        >= writer.durable_batch.value;
    let armed = writer.retry_checkpoint_at == Some(writer.durable_batch);
    &&& writer.active_checkpoint is None
    &&& writer.durable_batch.value - covered >= 512
    &&& !tried || armed
}

/// The checkpoint is of the durable head, from the writer's Seal and claim, under the next
/// attempt number, and is then the active one.
pub open spec fn checkpoint_is_started(
    writer: WriterModel,
    started: WriterModel,
    ticket: CheckpointTicket,
) -> bool {
    &&& ticket.source == writer.seal.generation
    &&& ticket.cut == writer.durable_batch
    &&& ticket.attempt.owner_claim == writer.claim.generation
    &&& ticket.attempt.local_counter == writer.checkpoint_attempt
    &&& started.active_checkpoint == Some(ticket)
    &&& started.checkpoint_attempt == writer.checkpoint_attempt + 1
    &&& started.last_checkpoint_attempted_cut == Some(writer.durable_batch)
    &&& started.retry_checkpoint_at is None
    &&& started.claim == writer.claim
    &&& started.seal == writer.seal
    &&& started.base == writer.base
    &&& started.admitted == writer.admitted
    &&& started.durable == writer.durable
    &&& started.durable_batch == writer.durable_batch
    &&& started.next_batch == writer.next_batch
    &&& started.pending == writer.pending
    &&& started.flight == writer.flight
}

/// Checkpoints are started when they are due.
pub proof fn law_checkpoints_are_due_by_span(writer: WriterModel)
    requires
        writer.wf(),
        writer.checkpoint_attempt < u64::MAX,
    ensures
        writer.checkpoint_due() <==> is_due(writer),
        checkpoint_is_started(writer, writer.checkpointing(), writer.next_ticket()),
{
}

/// An install replaces the Seal and the base by the published ones and ends the active
/// checkpoint; what is admitted, durable, pending and in flight stays.
pub proof fn law_installs_replace_seal_and_base(
    writer: WriterModel,
    ticket: CheckpointTicket,
    install: CheckpointInstall,
    successor: SealModel,
    snapshot: ForestModel,
)
    ensures
        ({
            let after = writer.installed(successor, snapshot);
            &&& after.seal == successor
            &&& after.base == snapshot
            &&& after.active_checkpoint is None
            &&& after.claim == writer.claim
            &&& after.admitted == writer.admitted
            &&& after.durable == writer.durable
            &&& after.durable_batch == writer.durable_batch
            &&& after.next_batch == writer.next_batch
            &&& after.pending == writer.pending
            &&& after.flight == writer.flight
            &&& after.checkpoint_attempt == writer.checkpoint_attempt
            &&& after.last_checkpoint_attempted_cut == writer.last_checkpoint_attempted_cut
            &&& after.retry_checkpoint_at == writer.retry_checkpoint_at
        }),
        writer.installs(ticket, install) ==> {
            &&& install.source@ == writer.seal
            &&& install.successor@.partition == writer.seal.partition
            &&& install.successor@.generation.value == writer.seal.generation.value + 1
            &&& install.successor@.replay matches WalReplayPoint::Through { batch, owner } && batch
                == ticket.cut && owner == writer.claim.owner
        },
{
}

// Steps

/// A RUN's outcome: durable lets the writer go on; a coordinate taken by another fences
/// it; an unresolved create or a failing store poisons it; a contradiction is one. Each
/// names the RUN's coordinate.
pub proof fn law_run_outcomes(
    batch: BatchId,
    result: Result<WalEstablishment, TypedStoreError>,
    settled: Result<(), WriterExit>,
)
    requires
        call_ensures(settle_wal, (batch, result), settled),
    ensures
        match result {
            Ok(WalEstablishment::Durable) => settled is Ok,
            Ok(WalEstablishment::Occupied) => settled == Err::<(), WriterExit>(
                WriterExit::Fenced { batch },
            ),
            Ok(WalEstablishment::UnresolvedAbsent) => settled matches Err(WriterExit::Poisoned {
                batch: named,
                detail,
            }) && named == batch && detail@ == "WAL create is unresolved"@,
            Err(TypedStoreError::Retryable { detail: cause }) => settled matches Err(
                WriterExit::Poisoned { batch: named, detail },
            ) && named == batch && detail@ == cause@,
            Err(TypedStoreError::Rejected { detail: cause }) => settled matches Err(
                WriterExit::Poisoned { batch: named, detail },
            ) && named == batch && detail@ == cause@,
            Err(TypedStoreError::Contradiction { detail: cause }) => settled matches Err(
                WriterExit::Contradiction { batch: named, detail },
            ) && named == batch && detail@ == cause@,
        },
{
}

/// A checkpoint's end: an installed one is installed, an abandoned one forgotten, and any
/// other ends the writer in its own way, naming the cut.
pub proof fn law_checkpoint_outcomes(
    cut: BatchId,
    completion: CheckpointCompletion,
    settled: Result<Option<CheckpointInstall>, WriterExit>,
)
    requires
        call_ensures(settle_checkpoint, (cut, completion), settled),
    ensures
        match completion {
            CheckpointCompletion::Installed(install) => settled == Ok::<Option<CheckpointInstall>, WriterExit>(
                Some(install),
            ),
            CheckpointCompletion::Abandoned => settled == Ok::<Option<CheckpointInstall>, WriterExit>(
                None,
            ),
            CheckpointCompletion::Fenced => settled == Err::<Option<CheckpointInstall>, WriterExit>(
                WriterExit::Fenced { batch: cut },
            ),
            CheckpointCompletion::Poisoned { detail: cause } => settled matches Err(
                WriterExit::Poisoned { batch, detail },
            ) && batch == cut && detail@ == cause@,
            CheckpointCompletion::Contradiction { detail: cause } => settled matches Err(
                WriterExit::Contradiction { batch, detail },
            ) && batch == cut && detail@ == cause@,
        },
{
}

/// Commands are admitted exactly into a writer that is not closing and has a RUN in
/// flight or nobody waiting. Waiting commands are flushed exactly when no RUN is in
/// flight and the spacing has passed, or they are estimated to fill the buffer, or four
/// thousand and ninety-six wait, or the writer is closing.
pub proof fn law_flushes_and_admission(machine: MachineModel, spaced: bool)
    ensures
        machine.admits() <==> !machine.draining && (machine.writer.flight is Some
            || machine.writer.pending.len() == 0),
        machine.flushes(spaced) <==> {
            &&& machine.writer.flight is None
            &&& machine.writer.pending.len() > 0
            &&& {
                ||| spaced
                ||| machine.draining
                ||| machine.writer.pending.len() >= 4096
                ||| crate::domain::wal::facts_estimate(
                    crate::engine::writer_state::barrier_facts(machine.writer.pending),
                ) >= machine.flush_buffer_bytes
            }
        },
{
}

/// What an event itself does: a settled command is answered to its waiter; a durable RUN
/// releases the replies of its commands and publishes the new durable state under the
/// writer's Seal; an installed checkpoint publishes the durable state under the new Seal
/// and asks for a collection from the old to the new one, unless the writer is closing;
/// closed ingress makes the writer close; and a checkpoint that is not the active one
/// changes nothing.
#[verifier::rlimit(50)]
pub proof fn law_events_do_what_they_say(machine: MachineModel, event: WriterEvent)
    requires
        machine.writer.wf(),
        machine.expects(event),
    ensures
        ({
            let (after, step) = machine.taken(event);
            let writer = machine.writer;
            &&& after.flush_buffer_bytes == machine.flush_buffer_bytes
            &&& step.run is None && step.checkpoint is None
            &&& !(event is IngressClosed) ==> after.draining == machine.draining
            &&& match event {
                WriterEvent::Command(envelope) => {
                    &&& after.writer == writer.after_command(envelope@).0
                    &&& match writer.after_command(envelope@).1 {
                        Some(completion) => step.replies == seq![completion],
                        None => step.replies.len() == 0,
                    }
                    &&& step.view is None && step.collect is None && step.exit is None
                },
                WriterEvent::IngressClosed { cancelled } => {
                    &&& after.draining
                    &&& after.writer.active_checkpoint == (if cancelled {
                        None
                    } else {
                        writer.active_checkpoint
                    })
                    &&& after.writer == (WriterModel {
                        active_checkpoint: after.writer.active_checkpoint,
                        ..writer
                    })
                    &&& step.replies.len() == 0 && step.view is None && step.collect is None
                        && step.exit is None
                },
                WriterEvent::WalEstablished { batch, result } => {
                    if result == Ok::<WalEstablishment, TypedStoreError>(WalEstablishment::Durable) {
                        &&& after.writer == writer.record_durable()
                        &&& step.replies == crate::engine::writer_state::barrier_replies(
                            writer.flight->0.commands,
                        )
                        &&& step.view == Some(
                            (
                                writer.seal.generation,
                                writer.seal.replay,
                                writer.record_durable().durable,
                            ),
                        )
                        &&& step.collect is None && step.exit is None
                    } else {
                        &&& after.writer == writer
                        &&& step.exit is Some
                        &&& step.replies.len() == 0 && step.view is None && step.collect is None
                    }
                },
                WriterEvent::CheckpointFinished { ticket, completion } => {
                    if writer.active_checkpoint != Some(ticket) {
                        &&& after.writer == writer
                        &&& step.view is None && step.collect is None && step.exit is None
                            && step.replies.len() == 0
                    } else {
                        match completion {
                            CheckpointCompletion::Installed(install) => {
                                &&& after.writer == writer.installed(
                                    install.successor@,
                                    install.snapshot@,
                                )
                                &&& step.view == Some(
                                    (
                                        install.successor@.generation,
                                        install.successor@.replay,
                                        writer.durable,
                                    ),
                                )
                                &&& step.collect == (if machine.draining {
                                    None
                                } else {
                                    Some((writer.seal, install.successor@))
                                })
                                &&& step.exit is None && step.replies.len() == 0
                            },
                            CheckpointCompletion::Abandoned => {
                                &&& after.writer.active_checkpoint is None
                                &&& after.writer == (WriterModel {
                                    active_checkpoint: None,
                                    ..writer
                                })
                                &&& step.view is None && step.collect is None && step.exit is None
                                    && step.replies.len() == 0
                            },
                            _ => after.writer == writer && step.exit is Some,
                        }
                    }
                },
                WriterEvent::CheckpointCancelled { ticket } => {
                    &&& after.writer.active_checkpoint == (if writer.active_checkpoint == Some(
                        ticket,
                    ) {
                        None
                    } else {
                        writer.active_checkpoint
                    })
                    &&& after.writer == (WriterModel {
                        active_checkpoint: after.writer.active_checkpoint,
                        ..writer
                    })
                    &&& step.replies.len() == 0 && step.view is None && step.collect is None
                        && step.exit is None
                },
                _ => {
                    &&& after.writer == writer
                    &&& step.replies.len() == 0 && step.view is None && step.collect is None
                        && step.exit is None
                },
            }
        }),
{
}

// Answers

/// What callers learn of refusals, lost waiters and the writer's end.
pub proof fn law_refusals_reach_callers<Outcome>(
    refusal: AdmissionRefusal,
    error: StreamError,
    answer: Option<Result<Outcome, AdmissionRefusal>>,
    outcome: Result<Outcome, StreamError>,
    commanded: Result<Outcome, CommandError>,
)
    requires
        call_ensures(stream_error, (refusal,), error),
        call_ensures(stream_outcome::<Outcome>, (answer,), outcome),
        call_ensures(command_outcome::<Outcome>, (answer,), commanded),
    ensures
        refusal is PathOccupied <==> error is Occupied,
        refusal is PathCapacityExhausted <==> error is CapacityExhausted,
        refusal is PathNotLive <==> error is NotLive,
        refusal is Overloaded <==> error is Overloaded,
        answer is None <==> outcome == Err::<Outcome, StreamError>(
            StreamError::Indeterminate,
        ),
        answer is None <==> commanded == Err::<Outcome, CommandError>(
            CommandError::Indeterminate,
        ),
        answer matches Some(Ok(said)) ==> outcome == Ok::<Outcome, StreamError>(said) && commanded == Ok::<
            Outcome,
            CommandError,
        >(said),
        answer matches Some(Err(said)) ==> commanded == Err::<Outcome, CommandError>(
            CommandError::Refused(said),
        ),
        answer == Some(Err::<Outcome, AdmissionRefusal>(refusal)) ==> outcome == Err::<Outcome, StreamError>(
            error,
        ),
{
}

/// How the writer's end looks from outside.
pub proof fn law_endings_look_the_same_outside(exit: WriterExit, outcome: CloseOutcome)
    requires
        call_ensures(close_outcome, (exit,), outcome),
    ensures
        exit is Shutdown <==> outcome is Shutdown,
        exit is Fenced <==> outcome is Fenced,
        exit matches WriterExit::Poisoned { detail: cause, .. } ==> (outcome
            matches CloseOutcome::Poisoned { detail } && detail == cause),
        exit matches WriterExit::Contradiction { detail: cause, .. } ==> (outcome
            matches CloseOutcome::Contradiction { detail } && detail == cause),
{
}

/// How a failed bootstrap looks to the caller that opens.
pub proof fn law_failed_opens_say_why(
    exit: crate::engine::bootstrap_exit::BootstrapExit,
    error: OpenError,
)
    requires
        call_ensures(open_error, (exit,), error),
    ensures
        match exit {
            crate::engine::bootstrap_exit::BootstrapExit::Retryable { detail: cause } => error
                matches OpenError::Retryable { detail } && detail@ == cause@,
            crate::engine::bootstrap_exit::BootstrapExit::Fenced { observed: seen } => error
                == (OpenError::Fenced { observed: seen }),
            crate::engine::bootstrap_exit::BootstrapExit::Contradiction { detail: cause } => error
                matches OpenError::Contradiction { detail } && detail@ == cause@,
        },
{
}

} // verus!
