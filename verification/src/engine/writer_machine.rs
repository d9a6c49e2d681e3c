//! The order of the writer's decisions: from its state and one event to its next state
//! and the work that follows.

use vstd::prelude::*;

use crate::domain::bounds::WRITER_PENDING_COMMANDS_MAX;
use crate::domain::candidate::EncodedWal;
use crate::domain::coordinate::{BatchId, SealGeneration};
use crate::domain::seal::{Seal, SealModel, WalReplayPoint};
use crate::domain::wal::WalModel;
use crate::engine::checkpoint::CheckpointTicket;
use crate::engine::completion::CheckpointCompletion;
use crate::engine::forest::{Forest, ForestModel};
use crate::engine::options::{FlushPressure, Options};
use crate::engine::service::{PublishedView, WriterExit};
use crate::engine::store::{TypedStoreError, WalEstablishment};
use crate::engine::writer_effects::{
    settle_checkpoint, settle_wal, EffectKey, ExitModel, TaskFailure,
};
use crate::engine::writer_state::{
    AdmissionDecision, BarrierModel, CheckpointPlan, CommandEnvelope, Completion, FlightDecision,
    WriterModel, WriterState,
};

verus! {

/// What happens to a writer.
#[derive(Debug, PartialEq, Eq)]
pub enum WriterEvent {
    /// The writer starts.
    Started,
    /// The armed flush is due.
    FlushDue,
    /// One command comes in.
    Command(CommandEnvelope),
    /// No command will come any more. The active checkpoint was cancelled before its
    /// publication, or there is none, or it is publishing.
    IngressClosed { cancelled: bool },
    /// The RUN in flight was decided.
    WalEstablished { batch: BatchId, result: Result<WalEstablishment, TypedStoreError> },
    /// A checkpoint attempt ended.
    CheckpointFinished { ticket: CheckpointTicket, completion: CheckpointCompletion },
    /// The task of a checkpoint attempt was cancelled.
    CheckpointCancelled { ticket: CheckpointTicket },
    /// A collection ended.
    CollectFinished,
}

/// What the end of an effect's task tells the writer. Only the preparation of a
/// checkpoint is ever cancelled and no task may panic: else the effect's own key comes
/// back.
pub fn joined_event(key: EffectKey, joined: Result<WriterEvent, TaskFailure>) -> (event: Result<
    WriterEvent,
    EffectKey,
>)
    ensures
        event == (match (key, joined) {
            (_, Ok(event)) => Ok(event),
            (EffectKey::CheckpointPreparation { ticket }, Err(TaskFailure::Cancelled)) => Ok(
                WriterEvent::CheckpointCancelled { ticket },
            ),
            _ => Err(key),
        }),
{
    match (key, joined) {
        (_, Ok(event)) => Ok(event),
        (EffectKey::CheckpointPreparation { ticket }, Err(TaskFailure::Cancelled)) => Ok(
            WriterEvent::CheckpointCancelled { ticket },
        ),
        _ => Err(key),
    }
}

/// What one step asks for: a view is published, then replies are sent, then a
/// collection, a RUN and a checkpoint are started; and the writer's end, if it ends.
#[derive(Debug, PartialEq, Eq)]
pub struct WriterStep {
    pub replies: Vec<Completion>,
    pub view: Option<PublishedView>,
    pub collect: Option<(Seal, Seal)>,
    pub run: Option<EncodedWal>,
    pub checkpoint: Option<CheckpointPlan>,
    pub exit: Option<WriterExit>,
}

/// What one step says. A checkpoint is planned from the writer as it then stands.
pub struct StepModel {
    pub replies: Seq<Completion>,
    pub view: Option<(SealGeneration, WalReplayPoint, ForestModel)>,
    pub collect: Option<(SealModel, SealModel)>,
    pub run: Option<WalModel>,
    pub checkpoint: Option<WriterModel>,
    pub exit: Option<ExitModel>,
}

impl StepModel {
    /// Nothing follows.
    pub open spec fn nothing() -> Self {
        StepModel {
            replies: Seq::empty(),
            view: None,
            collect: None,
            run: None,
            checkpoint: None,
            exit: None,
        }
    }
}

/// The plan of the checkpoint that a writer starts.
pub open spec fn plans(plan: CheckpointPlan, writer: WriterModel) -> bool {
    &&& plan.ticket == writer.next_ticket()
    &&& plan.input.source@ == writer.seal
    &&& plan.input.base@ == writer.base
    &&& plan.input.snapshot@ == writer.durable
    &&& plan.input.cut == writer.durable_batch
    &&& plan.input.attempt == writer.next_ticket().attempt
    &&& plan.input.wf()
    &&& plan.input.cut.value > writer.seal.replay.covered()
}

impl WriterStep {
    /// The step does what the model says.
    pub open spec fn does(self, model: StepModel) -> bool {
        &&& self.replies@ == model.replies
        &&& match (self.view, model.view) {
            (Some(view), Some(said)) => (view.generation, view.replay, view.forest@) == said,
            (None, None) => true,
            _ => false,
        }
        &&& match (self.collect, model.collect) {
            (Some(seals), Some(said)) => (seals.0@, seals.1@) == said && seals.0.wf()
                && seals.1.wf(),
            (None, None) => true,
            _ => false,
        }
        &&& match (self.run, model.run) {
            (Some(encoded), Some(run)) => encoded.carries(run),
            (None, None) => true,
            _ => false,
        }
        &&& match (self.checkpoint, model.checkpoint) {
            (Some(plan), Some(writer)) => plans(plan, writer),
            (None, None) => true,
            _ => false,
        }
        &&& match (self.exit, model.exit) {
            (Some(exit), Some(said)) => exit.said() == said,
            (None, None) => true,
            _ => false,
        }
    }
}

/// The sole writer: its state, when it flushes, and whether it is closing.
#[derive(Debug, PartialEq, Eq)]
pub struct WriterMachine {
    pub state: WriterState,
    pub options: Options,
    pub draining: bool,
}

/// What a writer says.
pub struct MachineModel {
    pub writer: WriterModel,
    pub flush_buffer_bytes: usize,
    pub draining: bool,
}

impl View for WriterMachine {
    type V = MachineModel;

    open spec fn view(&self) -> MachineModel {
        MachineModel {
            writer: self.state@,
            flush_buffer_bytes: self.options.flush_buffer_bytes,
            draining: self.draining,
        }
    }
}

impl MachineModel {
    /// Commands are admitted behind a flight or into a quiescent writer, until the
    /// writer is closing.
    pub open spec fn admits(self) -> bool {
        !self.draining && (self.writer.flight is Some || self.writer.pending.len() == 0)
    }

    /// The event can happen to this writer.
    pub open spec fn expects(self, event: WriterEvent) -> bool {
        match event {
            WriterEvent::Command(envelope) => self.admits() && envelope@.wf(),
            WriterEvent::WalEstablished { batch, .. } => self.writer.flight matches Some(flight)
                && flight.batch == batch,
            WriterEvent::CheckpointFinished { ticket, completion } => {
                self.writer.active_checkpoint == Some(ticket) ==> (completion
                    matches CheckpointCompletion::Installed(install)
                    ==> self.writer.installs(ticket, install))
            },
            _ => true,
        }
    }

    /// The writer without its active checkpoint.
    pub open spec fn abandoned(self) -> Self {
        MachineModel {
            writer: WriterModel { active_checkpoint: None, ..self.writer },
            ..self
        }
    }

    /// What the event itself changes and asks for.
    pub open spec fn taken(self, event: WriterEvent) -> (Self, StepModel) {
        let nothing = StepModel::nothing();
        match event {
            WriterEvent::Command(envelope) => {
                let (writer, settled) = self.writer.after_command(envelope@);
                (
                    MachineModel { writer, ..self },
                    match settled {
                        Some(completion) => StepModel { replies: seq![completion], ..nothing },
                        None => nothing,
                    },
                )
            },
            WriterEvent::IngressClosed { cancelled } => {
                let closing = MachineModel { draining: true, ..self };
                (
                    if cancelled {
                        closing.abandoned()
                    } else {
                        closing
                    },
                    nothing,
                )
            },
            WriterEvent::WalEstablished { batch, result } => {
                match crate::engine::writer_effects::wal_exit(batch, result) {
                    Some(exit) => (self, StepModel { exit: Some(exit), ..nothing }),
                    None => {
                        let writer = self.writer.record_durable();
                        (
                            MachineModel { writer, ..self },
                            StepModel {
                                replies: crate::engine::writer_state::barrier_replies(
                                    self.writer.flight->0.commands,
                                ),
                                view: Some(
                                    (writer.seal.generation, writer.seal.replay, writer.durable),
                                ),
                                ..nothing
                            },
                        )
                    },
                }
            },
            WriterEvent::CheckpointFinished { ticket, completion } => {
                if self.writer.active_checkpoint != Some(ticket) {
                    (self, nothing)
                } else {
                    match completion {
                        CheckpointCompletion::Installed(install) => {
                            let writer = self.writer.installed(
                                install.successor@,
                                install.snapshot@,
                            );
                            (
                                MachineModel { writer, ..self },
                                StepModel {
                                    view: Some(
                                        (
                                            writer.seal.generation,
                                            writer.seal.replay,
                                            writer.durable,
                                        ),
                                    ),
                                    collect: if self.draining {
                                        None
                                    } else {
                                        Some((self.writer.seal, writer.seal))
                                    },
                                    ..nothing
                                },
                            )
                        },
                        CheckpointCompletion::Abandoned => (self.abandoned(), nothing),
                        _ => (
                            self,
                            StepModel {
                                exit: crate::engine::writer_effects::checkpoint_exit(
                                    ticket.cut,
                                    completion.said(),
                                ),
                                ..nothing
                            },
                        ),
                    }
                }
            },
            WriterEvent::CheckpointCancelled { ticket } => {
                if self.writer.active_checkpoint == Some(ticket) {
                    (self.abandoned(), nothing)
                } else {
                    (self, nothing)
                }
            },
            WriterEvent::Started => (self, nothing),
            WriterEvent::FlushDue => (self, nothing),
            WriterEvent::CollectFinished => (self, nothing),
        }
    }

    /// Waiting commands are flushed now: the spacing has passed, or under byte pressure,
    /// at hard capacity and when closing.
    pub open spec fn flushes(self, spaced: bool) -> bool {
        &&& self.writer.flight is None
        &&& self.writer.pending.len() > 0
        &&& {
            ||| spaced
            ||| crate::domain::wal::facts_estimate(
                crate::engine::writer_state::barrier_facts(self.writer.pending),
            ) >= self.flush_buffer_bytes
            ||| self.writer.pending.len() >= WRITER_PENDING_COMMANDS_MAX
            ||| self.draining
        }
    }

    /// Takes the waiting commands to a RUN, or answers them, where a flush is due.
    pub open spec fn flushed(self, spaced: bool, step: StepModel) -> (Self, StepModel) {
        if self.flushes(spaced) {
            let (writer, barrier) = self.writer.take_flight();
            (
                MachineModel { writer, ..self },
                match barrier {
                    BarrierModel::Run(run) => StepModel { run: Some(run), ..step },
                    BarrierModel::Replies(replies) => StepModel {
                        replies: step.replies + replies,
                        ..step
                    },
                    BarrierModel::Idle => step,
                },
            )
        } else {
            (self, step)
        }
    }

    /// Starts a checkpoint where one is due; a closing writer starts none.
    pub open spec fn checkpointed(self, step: StepModel) -> (Self, StepModel) {
        if !self.draining && self.writer.checkpoint_due() {
            (
                MachineModel { writer: self.writer.checkpointing(), ..self },
                StepModel { checkpoint: Some(self.writer), ..step },
            )
        } else {
            (self, step)
        }
    }

    /// A closing writer has nothing left to do.
    pub open spec fn is_finished(self) -> bool {
        self.draining && self.writer.is_quiescent() && self.writer.active_checkpoint is None
    }

    /// The writer after one event, and what follows from it: first what the event itself
    /// says, and unless that ends the writer, a flush, then a checkpoint, then the end of
    /// a closing writer.
    pub open spec fn after(self, spaced: bool, event: WriterEvent) -> (Self, StepModel) {
        let (taken, said) = self.taken(event);
        if said.exit is Some {
            (taken, said)
        } else {
            let (flushed, said) = taken.flushed(spaced, said);
            let (started, said) = flushed.checkpointed(said);
            (
                started,
                if started.is_finished() {
                    StepModel { exit: Some(ExitModel::Shutdown), ..said }
                } else {
                    said
                },
            )
        }
    }

    /// A step that ends the writer starts no work: no RUN, no checkpoint and no
    /// collection.
    pub proof fn law_terminal_steps_start_no_work(self, spaced: bool, event: WriterEvent)
        requires
            self.writer.wf(),
            self.expects(event),
            self.after(spaced, event).1.exit is Some,
        ensures
            self.after(spaced, event).1.run is None,
            self.after(spaced, event).1.checkpoint is None,
            self.after(spaced, event).1.collect is None,
    {
    }

    /// What a step collects is an advance of the writer's Seal.
    pub proof fn law_collections_follow_an_advance(self, spaced: bool, event: WriterEvent)
        requires
            self.writer.wf(),
            self.expects(event),
        ensures
            self.after(spaced, event).1.collect matches Some(seals)
                ==> crate::engine::collection::advances(seals.0, seals.1),
    {
    }

    /// A closing writer ends only when every accepted command was answered, nothing is
    /// in flight and no checkpoint is publishing; it never admits a command again.
    pub proof fn law_shutdown_drains_everything(self, spaced: bool, event: WriterEvent)
        requires
            self.writer.wf(),
            self.expects(event),
            self.after(spaced, event).1.exit == Some(ExitModel::Shutdown),
        ensures
            ({
                let after = self.after(spaced, event).0;
                &&& after.draining
                &&& after.writer.is_quiescent()
                &&& after.writer.active_checkpoint is None
                &&& !after.admits()
            }),
    {
    }

    /// At most one RUN is in flight: a step starts one only where none was left.
    pub proof fn law_one_run_at_a_time(self, spaced: bool, event: WriterEvent)
        requires
            self.writer.wf(),
            self.expects(event),
            self.after(spaced, event).1.run is Some,
        ensures
            self.taken(event).0.writer.flight is None,
            self.after(spaced, event).0.writer.flight is Some,
    {
    }

    /// A closing writer flushes what waits at once, whatever the spacing.
    pub proof fn law_closing_writer_does_not_wait(self, spaced: bool, event: WriterEvent)
        requires
            self.writer.wf(),
            self.expects(event),
            self.draining,
            self.after(spaced, event).1.exit is None,
        ensures
            self.after(spaced, event).0.writer.flight is Some || self.after(
                spaced,
                event,
            ).0.writer.pending.len() == 0,
            self.after(spaced, event).0.draining,
    {
    }
}

impl WriterMachine {
    pub open spec fn wf(self) -> bool {
        self.state.wf()
    }

    pub fn new(state: WriterState, options: Options) -> (machine: Self)
        requires
            state.wf(),
        ensures
            machine.wf(),
            machine@ == (MachineModel {
                writer: state@,
                flush_buffer_bytes: options.flush_buffer_bytes,
                draining: false,
            }),
            machine.options == options,
    {
        WriterMachine { state, options, draining: false }
    }

    /// Whether a command may come in.
    pub fn admission_open(&self) -> (open: bool)
        ensures
            open == self@.admits(),
    {
        !self.draining && (self.state.has_flight() || self.state.pending.len() == 0)
    }

    /// Whether commands wait only for the flush spacing to pass.
    pub fn awaits_flush(&self) -> (awaits: bool)
        ensures
            awaits == (self@.writer.flight is None && self@.writer.pending.len() > 0),
    {
        !self.state.has_flight() && self.state.pending.len() > 0
    }

    /// Takes one event. `spaced` says whether the flush spacing has passed since the
    /// last RUN was started.
    pub fn handle(&mut self, spaced: bool, event: WriterEvent) -> (step: WriterStep)
        requires
            old(self).wf(),
            old(self)@.expects(event),
            old(self).state.checkpoint_attempt < u64::MAX,
        ensures
            final(self).wf(),
            final(self)@ == old(self)@.after(spaced, event).0,
            final(self).options == old(self).options,
            step.does(old(self)@.after(spaced, event).1),
    {
        let mut step = self.take(event);
        if step.exit.is_some() {
            return step;
        }
        self.flush(spaced, &mut step);
        self.start_checkpoint(&mut step);
        if self.draining && self.state.is_quiescent() && self.state.active_checkpoint().is_none() {
            step.exit = Some(WriterExit::Shutdown);
        }
        step
    }

    fn publish(&self, forest: Forest) -> (view: PublishedView)
        ensures
            (view.generation, view.replay, view.forest@) == (
                self@.writer.seal.generation,
                self@.writer.seal.replay,
                forest@,
            ),
    {
        PublishedView::new(self.state.seal.generation(), self.state.seal.replay(), forest)
    }

    fn abandon(&mut self)
        requires
            old(self).wf(),
        ensures
            final(self).wf(),
            final(self)@ == old(self)@.abandoned(),
            final(self).options == old(self).options,
    {
        if let Some(ticket) = self.state.active_checkpoint() {
            self.state.abandon_checkpoint(ticket);
        }
    }

    fn take(&mut self, event: WriterEvent) -> (step: WriterStep)
        requires
            old(self).wf(),
            old(self)@.expects(event),
        ensures
            final(self).wf(),
            final(self)@ == old(self)@.taken(event).0,
            final(self).options == old(self).options,
            final(self).state.checkpoint_attempt == old(self).state.checkpoint_attempt,
            step.does(old(self)@.taken(event).1),
    {
        let mut step = WriterStep {
            replies: Vec::new(),
            view: None,
            collect: None,
            run: None,
            checkpoint: None,
            exit: None,
        };
        match event {
            WriterEvent::Command(envelope) => {
                match self.state.admit_command(envelope) {
                    AdmissionDecision::Settled(completion) => {
                        step.replies.push(completion);
                        assert(step.replies@ =~= seq![completion]);
                    },
                    AdmissionDecision::Queued => {},
                }
            },
            WriterEvent::IngressClosed { cancelled } => {
                self.draining = true;
                if cancelled {
                    self.abandon();
                }
            },
            WriterEvent::WalEstablished { batch, result } => {
                match settle_wal(batch, result) {
                    Ok(()) => {
                        let durable = self.state.record_wal_durable(batch);
                        step.view = Some(self.publish(durable.forest));
                        step.replies = durable.replies;
                    },
                    Err(exit) => {
                        step.exit = Some(exit);
                    },
                }
            },
            WriterEvent::CheckpointFinished { ticket, completion } => {
                let active = match self.state.active_checkpoint() {
                    Some(held) => held == ticket,
                    None => false,
                };
                if active {
                    match settle_checkpoint(ticket.cut, completion) {
                        Ok(Some(install)) => {
                            let installed = self.state.install_checkpoint(ticket, install);
                            step.view = Some(self.publish(installed.forest));
                            if !self.draining {
                                step.collect = Some((installed.source, installed.successor));
                            }
                        },
                        Ok(None) => {
                            self.abandon();
                        },
                        Err(exit) => {
                            step.exit = Some(exit);
                        },
                    }
                }
            },
            WriterEvent::CheckpointCancelled { ticket } => {
                let active = match self.state.active_checkpoint() {
                    Some(held) => held == ticket,
                    None => false,
                };
                if active {
                    self.abandon();
                }
            },
            WriterEvent::Started => {},
            WriterEvent::FlushDue => {},
            WriterEvent::CollectFinished => {},
        }
        step
    }

    fn flush(&mut self, spaced: bool, step: &mut WriterStep)
        requires
            old(self).wf(),
        ensures
            final(self).wf(),
            final(self).options == old(self).options,
            final(self).state.checkpoint_attempt == old(self).state.checkpoint_attempt,
            forall|said: StepModel|
                said.run is None && #[trigger] old(step).does(said) ==> final(step).does(
                    old(self)@.flushed(spaced, said).1,
                ) && final(self)@ == old(self)@.flushed(spaced, said).0,
    {
        if self.state.has_flight() || self.state.pending.len() == 0 {
            return;
        }
        let pressure = FlushPressure {
            interval_elapsed: spaced,
            buffered_bytes: self.state.buffered_bytes(),
            at_capacity: self.state.pending.len() >= WRITER_PENDING_COMMANDS_MAX,
            draining: self.draining,
        };
        if !self.options.is_flush_due(pressure) {
            return;
        }
        match self.state.take_flight() {
            FlightDecision::Run(encoded) => {
                step.run = Some(encoded);
            },
            FlightDecision::Replies(replies) => {
                let mut replies = replies;
                step.replies.append(&mut replies);
            },
            FlightDecision::Idle => {},
        }
    }

    fn start_checkpoint(&mut self, step: &mut WriterStep)
        requires
            old(self).wf(),
            old(self).state.checkpoint_attempt < u64::MAX,
        ensures
            final(self).wf(),
            final(self).options == old(self).options,
            forall|said: StepModel|
                said.checkpoint is None && #[trigger] old(step).does(said) ==> final(step).does(
                    old(self)@.checkpointed(said).1,
                ) && final(self)@ == old(self)@.checkpointed(said).0,
    {
        if self.draining {
            return;
        }
        if let Some(plan) = self.state.take_checkpoint() {
            step.checkpoint = Some(plan);
        }
    }
}

} // verus!
