//! Pure admission-to-durability writer protocol.

use vstd::prelude::*;

use crate::domain::bounds::{
    WAL_FACT_ENCODED_BYTES_ESTIMATE_MAX, WAL_RUN_FACTS_MAX, WAL_SUFFIX_CHECKPOINT_SPAN_TRIGGER,
    WAL_SUFFIX_COORDINATES_MAX_V2,
};
use crate::domain::candidate::EncodedWal;
use crate::domain::coordinate::BatchId;
use crate::domain::directory::DirectoryKey;
use crate::domain::partition::PartitionId;
use crate::domain::seal::{Seal, SealModel, WalReplayPoint};
use crate::domain::table::AttemptId;
use crate::domain::wal::{FactModel, OperationFact, WalBody, WalFacts, WalModel, WalObject};
use crate::engine::admission::{
    admit_close, admit_create, admit_delete, decide_suffix_room, AdmissionRefusal, AdmittedCommand,
    CloseAdmission, CreateAdmission, CreateModel, CreateStream,
};
use crate::engine::checkpoint::{CheckpointInput, CheckpointInstall, CheckpointTicket};
use crate::engine::claim::AuthoredClaim;
use crate::engine::forest::{FoldContradiction, Forest, ForestModel};

verus! {

/// How a create command ended.
#[derive(Debug, Clone, Copy, PartialEq, Eq, Structural)]
pub enum CreateOutcome {
    Created,
    AlreadyExists,
}

/// How a close command ended.
#[derive(Debug, Clone, Copy, PartialEq, Eq, Structural)]
pub enum CloseStreamOutcome {
    Closed,
    AlreadyClosed,
}

/// One command and the number by which its waiter is found again.
#[derive(Debug, PartialEq, Eq)]
pub enum CommandEnvelope {
    Create { command: CreateStream, reply: u64 },
    Close { path: DirectoryKey, reply: u64 },
    Delete { path: DirectoryKey, reply: u64 },
}

/// What an envelope carries.
pub enum EnvelopeModel {
    Create { command: CreateModel, reply: u64 },
    Close { path: Seq<u8>, reply: u64 },
    Delete { path: Seq<u8>, reply: u64 },
}

impl View for CommandEnvelope {
    type V = EnvelopeModel;

    open spec fn view(&self) -> EnvelopeModel {
        match *self {
            CommandEnvelope::Create { command, reply } => EnvelopeModel::Create {
                command: command@,
                reply,
            },
            CommandEnvelope::Close { path, reply } => EnvelopeModel::Close { path: path@, reply },
            CommandEnvelope::Delete { path, reply } => EnvelopeModel::Delete { path: path@, reply },
        }
    }
}

/// The outcome of one command and the waiter that it is owed to.
#[allow(inconsistent_fields)]
#[derive(Debug, Clone, Copy, PartialEq, Eq)]
pub enum Completion {
    Create { outcome: Result<CreateOutcome, AdmissionRefusal>, reply: u64 },
    Close { outcome: Result<CloseStreamOutcome, AdmissionRefusal>, reply: u64 },
    Delete { outcome: Result<(), AdmissionRefusal>, reply: u64 },
}

impl EnvelopeModel {
    /// The protocol's bounds on what a command carries.
    pub open spec fn wf(self) -> bool {
        match self {
            EnvelopeModel::Create { command, .. } => command.wf(),
            EnvelopeModel::Close { path, .. } => crate::domain::protocol::path_fits(path),
            EnvelopeModel::Delete { path, .. } => crate::domain::protocol::path_fits(path),
        }
    }

    /// The command's completion with a refusal.
    pub open spec fn refusal(self, refusal: AdmissionRefusal) -> Completion {
        match self {
            EnvelopeModel::Create { reply, .. } => Completion::Create {
                outcome: Err(refusal),
                reply,
            },
            EnvelopeModel::Close { reply, .. } => Completion::Close { outcome: Err(refusal), reply },
            EnvelopeModel::Delete { reply, .. } => Completion::Delete {
                outcome: Err(refusal),
                reply,
            },
        }
    }
}

impl CommandEnvelope {
    /// Whether the command is inside the protocol's bounds.
    pub fn is_valid(&self) -> (valid: bool)
        ensures
            valid == self@.wf(),
    {
        match self {
            CommandEnvelope::Create { command, reply: _ } => command.is_valid(),
            CommandEnvelope::Close { path, reply: _ } => path.is_fitting(),
            CommandEnvelope::Delete { path, reply: _ } => path.is_fitting(),
        }
    }

    fn refusal(self, refusal: AdmissionRefusal) -> (completion: Completion)
        ensures
            completion == self@.refusal(refusal),
    {
        match self {
            CommandEnvelope::Create { command: _, reply } => Completion::Create {
                outcome: Err(refusal),
                reply,
            },
            CommandEnvelope::Close { path: _, reply } => Completion::Close {
                outcome: Err(refusal),
                reply,
            },
            CommandEnvelope::Delete { path: _, reply } => Completion::Delete {
                outcome: Err(refusal),
                reply,
            },
        }
    }
}

impl Completion {
    pub open spec fn spec_refusal(self, refusal: AdmissionRefusal) -> Self {
        match self {
            Completion::Create { reply, .. } => Completion::Create { outcome: Err(refusal), reply },
            Completion::Close { reply, .. } => Completion::Close { outcome: Err(refusal), reply },
            Completion::Delete { reply, .. } => Completion::Delete { outcome: Err(refusal), reply },
        }
    }

    /// The same waiter, refused.
    pub fn refusal(self, refusal: AdmissionRefusal) -> (refused: Self)
        ensures
            refused == self.spec_refusal(refusal),
    {
        match self {
            Completion::Create { outcome: _, reply } => Completion::Create {
                outcome: Err(refusal),
                reply,
            },
            Completion::Close { outcome: _, reply } => Completion::Close {
                outcome: Err(refusal),
                reply,
            },
            Completion::Delete { outcome: _, reply } => Completion::Delete {
                outcome: Err(refusal),
                reply,
            },
        }
    }
}

/// What admission does with one command.
#[derive(Debug, PartialEq, Eq)]
pub enum AdmissionDecision {
    Settled(Completion),
    Queued,
}

/// What a pending barrier turns into.
#[derive(Debug, PartialEq, Eq)]
pub enum FlightDecision {
    Run(EncodedWal),
    Replies(Vec<Completion>),
    Idle,
}

/// What one durable RUN releases.
#[derive(Debug, PartialEq, Eq)]
pub struct DurableWal {
    pub replies: Vec<Completion>,
    pub forest: Forest,
}

/// One planned checkpoint attempt.
#[derive(Debug, PartialEq, Eq)]
pub struct CheckpointPlan {
    pub input: CheckpointInput,
    pub ticket: CheckpointTicket,
}

/// What an installed checkpoint releases.
#[derive(Debug, PartialEq, Eq)]
pub struct InstalledCheckpoint {
    pub source: Seal,
    pub successor: Seal,
    pub forest: Forest,
}

/// One admitted command that waits for durability. It has no fact when an
/// idempotent reply inherits an earlier fact's barrier.
#[derive(Debug, PartialEq, Eq)]
pub struct PendingCommand {
    pub fact: Option<OperationFact>,
    pub completion: Completion,
}

/// What a waiting command says.
pub struct PendingModel {
    pub fact: Option<FactModel>,
    pub completion: Completion,
}

impl View for PendingCommand {
    type V = PendingModel;

    open spec fn view(&self) -> PendingModel {
        PendingModel {
            fact: match self.fact {
                Some(fact) => Some(fact@),
                None => None,
            },
            completion: self.completion,
        }
    }
}

/// What waiting commands say, in admission order.
pub open spec fn commands_model(commands: Seq<PendingCommand>) -> Seq<PendingModel> {
    commands.map(|_i: int, command: PendingCommand| command@)
}

/// The facts of waiting commands, in admission order.
pub open spec fn barrier_facts(commands: Seq<PendingModel>) -> Seq<FactModel>
    decreases commands.len(),
{
    if commands.len() == 0 {
        Seq::empty()
    } else {
        match commands.last().fact {
            Some(fact) => barrier_facts(commands.drop_last()).push(fact),
            None => barrier_facts(commands.drop_last()),
        }
    }
}

/// The completions of waiting commands, in admission order.
pub open spec fn barrier_replies(commands: Seq<PendingModel>) -> Seq<Completion> {
    commands.map(|_i: int, command: PendingModel| command.completion)
}

/// Every waiting fact is inside the protocol's bounds.
pub open spec fn commands_fit(commands: Seq<PendingModel>) -> bool {
    forall|i: int|
        #![trigger commands[i]]
        0 <= i < commands.len() ==> (commands[i].fact matches Some(fact) ==> fact.wf())
}

/// One RUN whose durability is not known yet.
#[derive(Debug, PartialEq, Eq)]
pub struct InFlight {
    pub batch: BatchId,
    pub commands: Vec<PendingCommand>,
}

/// What a RUN in flight carries.
pub struct FlightModel {
    pub batch: BatchId,
    pub commands: Seq<PendingModel>,
}

impl View for InFlight {
    type V = FlightModel;

    open spec fn view(&self) -> FlightModel {
        FlightModel { batch: self.batch, commands: commands_model(self.commands@) }
    }
}

/// The sole writer's state between admission and durability.
#[derive(Debug, PartialEq, Eq)]
pub struct WriterState {
    pub claim: AuthoredClaim,
    pub seal: Seal,
    pub base: Forest,
    pub admitted: Forest,
    pub durable: Forest,
    pub durable_batch: BatchId,
    pub next_batch: BatchId,
    pub pending: Vec<PendingCommand>,
    pub flight: Option<InFlight>,
    pub checkpoint_attempt: u64,
    pub last_checkpoint_attempted_cut: Option<BatchId>,
    pub retry_checkpoint_at: Option<BatchId>,
    pub active_checkpoint: Option<CheckpointTicket>,
}

/// What the writer's state says.
pub struct WriterModel {
    pub claim: AuthoredClaim,
    pub seal: SealModel,
    pub base: ForestModel,
    pub admitted: ForestModel,
    pub durable: ForestModel,
    pub durable_batch: BatchId,
    pub next_batch: BatchId,
    pub pending: Seq<PendingModel>,
    pub flight: Option<FlightModel>,
    pub checkpoint_attempt: u64,
    pub last_checkpoint_attempted_cut: Option<BatchId>,
    pub retry_checkpoint_at: Option<BatchId>,
    pub active_checkpoint: Option<CheckpointTicket>,
}

impl View for WriterState {
    type V = WriterModel;

    open spec fn view(&self) -> WriterModel {
        WriterModel {
            claim: self.claim,
            seal: self.seal@,
            base: self.base@,
            admitted: self.admitted@,
            durable: self.durable@,
            durable_batch: self.durable_batch,
            next_batch: self.next_batch,
            pending: commands_model(self.pending@),
            flight: match self.flight {
                Some(flight) => Some(flight@),
                None => None,
            },
            checkpoint_attempt: self.checkpoint_attempt,
            last_checkpoint_attempted_cut: self.last_checkpoint_attempted_cut,
            retry_checkpoint_at: self.retry_checkpoint_at,
            active_checkpoint: self.active_checkpoint,
        }
    }
}

/// What one command comes to against admitted state.
pub enum AdmissionModel {
    Fact { fact: FactModel, completion: Completion },
    Idempotent(Completion),
    Refused(Completion),
}

/// Decides one command against admitted state.
pub open spec fn spec_admission(admitted: ForestModel, envelope: EnvelopeModel) -> AdmissionModel {
    match envelope {
        EnvelopeModel::Create { command, reply } => match crate::engine::admission::spec_admit_create(
            admitted,
            command,
        ) {
            Ok(Some(fact)) => AdmissionModel::Fact {
                fact,
                completion: Completion::Create { outcome: Ok(CreateOutcome::Created), reply },
            },
            Ok(None) => AdmissionModel::Idempotent(
                Completion::Create { outcome: Ok(CreateOutcome::AlreadyExists), reply },
            ),
            Err(refusal) => AdmissionModel::Refused(
                Completion::Create { outcome: Err(refusal), reply },
            ),
        },
        EnvelopeModel::Close { path, reply } => match crate::engine::admission::spec_admit_close(
            admitted,
            path,
        ) {
            Ok(Some(fact)) => AdmissionModel::Fact {
                fact,
                completion: Completion::Close { outcome: Ok(CloseStreamOutcome::Closed), reply },
            },
            Ok(None) => AdmissionModel::Idempotent(
                Completion::Close { outcome: Ok(CloseStreamOutcome::AlreadyClosed), reply },
            ),
            Err(refusal) => AdmissionModel::Refused(
                Completion::Close { outcome: Err(refusal), reply },
            ),
        },
        EnvelopeModel::Delete { path, reply } => match crate::engine::admission::spec_admit_delete(
            admitted,
            path,
        ) {
            Ok(fact) => AdmissionModel::Fact {
                fact,
                completion: Completion::Delete { outcome: Ok(()), reply },
            },
            Err(refusal) => AdmissionModel::Refused(
                Completion::Delete { outcome: Err(refusal), reply },
            ),
        },
    }
}

/// What a pending barrier turns into.
pub enum BarrierModel {
    Run(WalModel),
    Replies(Seq<Completion>),
    Idle,
}

impl WriterModel {
    /// The durable state with the facts in flight folded in.
    pub open spec fn landed(self) -> Result<ForestModel, FoldContradiction> {
        match self.flight {
            Some(flight) => self.durable.fold_all(flight.batch, barrier_facts(flight.commands)),
            None => Ok(self.durable),
        }
    }

    /// Nothing is in flight and nothing waits.
    pub open spec fn is_quiescent(self) -> bool {
        self.flight is None && self.pending.len() == 0
    }

    /// Coordinates are consecutive, the RUN in flight is directly after the durable
    /// one, and admitted state is durable state with the flight and then the pending
    /// facts folded in. Every RUN leaves room for the next claimant's FENCE.
    pub open spec fn wf(self) -> bool {
        &&& self.claim.wf()
        &&& self.seal.wf()
        &&& self.claim.generation.value <= self.seal.generation.value
        &&& self.base.wf()
        &&& self.admitted.wf()
        &&& self.durable.wf()
        &&& self.durable_batch.wf()
        &&& self.seal.replay.covered() <= self.durable_batch.value
        &&& self.pending.len() <= WAL_RUN_FACTS_MAX
        &&& commands_fit(self.pending)
        &&& barrier_facts(self.pending).len() > 0 ==> crate::engine::admission::suffix_room(
            self.seal.replay.covered(),
            self.next_batch,
        )
        &&& match self.flight {
            None => self.next_batch.value == self.durable_batch.value + 1,
            Some(flight) => {
                &&& flight.batch.value == self.durable_batch.value + 1
                &&& self.next_batch.value == flight.batch.value + 1
                &&& commands_fit(flight.commands)
                &&& crate::engine::admission::suffix_room(self.seal.replay.covered(), flight.batch)
            },
        }
        &&& self.landed() matches Ok(landed) && landed.fold_all(
            self.next_batch,
            barrier_facts(self.pending),
        ) == Ok::<ForestModel, FoldContradiction>(self.admitted)
        &&& self.last_checkpoint_attempted_cut matches Some(cut) ==> cut.value
            <= self.durable_batch.value
        &&& self.active_checkpoint matches Some(ticket) ==> {
            &&& ticket.source == self.seal.generation
            &&& self.seal.replay.covered() < ticket.cut.value <= self.durable_batch.value
            &&& ticket.attempt.owner_claim == self.claim.generation
        }
    }

    /// The state after one command, and the command's completion unless it waits.
    pub open spec fn after_command(self, envelope: EnvelopeModel) -> (Self, Option<Completion>) {
        if self.pending.len() == WAL_RUN_FACTS_MAX {
            (self, Some(envelope.refusal(AdmissionRefusal::Overloaded)))
        } else {
            match spec_admission(self.admitted, envelope) {
                AdmissionModel::Fact { fact, completion } => {
                    if crate::engine::admission::suffix_room(
                        self.seal.replay.covered(),
                        self.next_batch,
                    ) {
                        (
                            WriterModel {
                                admitted: self.admitted.fold(self.next_batch, fact)->Ok_0,
                                pending: self.pending.push(
                                    PendingModel { fact: Some(fact), completion },
                                ),
                                ..self
                            },
                            None,
                        )
                    } else {
                        (
                            WriterModel { retry_checkpoint_at: Some(self.durable_batch), ..self },
                            Some(completion.spec_refusal(AdmissionRefusal::Overloaded)),
                        )
                    }
                },
                AdmissionModel::Idempotent(completion) => if self.flight is None {
                    (self, Some(completion))
                } else {
                    (
                        WriterModel {
                            pending: self.pending.push(PendingModel { fact: None, completion }),
                            ..self
                        },
                        None,
                    )
                },
                AdmissionModel::Refused(completion) => (self, Some(completion)),
            }
        }
    }

    /// The RUN that the pending facts form.
    pub open spec fn pending_run(self) -> WalModel {
        WalModel {
            partition: self.seal.partition,
            batch: self.next_batch,
            owner: self.claim.owner,
            facts: Some(barrier_facts(self.pending)),
        }
    }

    /// The state after the pending barrier was taken, and what it turns into.
    pub open spec fn take_flight(self) -> (Self, BarrierModel) {
        if self.flight is Some || self.pending.len() == 0 {
            (self, BarrierModel::Idle)
        } else if barrier_facts(self.pending).len() == 0 {
            (
                WriterModel { pending: Seq::empty(), ..self },
                BarrierModel::Replies(barrier_replies(self.pending)),
            )
        } else {
            (
                WriterModel {
                    pending: Seq::empty(),
                    next_batch: BatchId { value: (self.next_batch.value + 1) as u64 },
                    flight: Some(FlightModel { batch: self.next_batch, commands: self.pending }),
                    ..self
                },
                BarrierModel::Run(self.pending_run()),
            )
        }
    }

    /// The state after the RUN in flight became durable.
    pub open spec fn record_durable(self) -> Self {
        WriterModel {
            durable: self.landed()->Ok_0,
            durable_batch: self.flight->0.batch,
            flight: None,
            ..self
        }
    }

    /// The suffix is long enough for a checkpoint, none is active, and the durable
    /// head was not tried yet or is armed for a retry.
    pub open spec fn checkpoint_due(self) -> bool {
        &&& self.active_checkpoint is None
        &&& self.durable_batch.value - self.seal.replay.covered()
            >= WAL_SUFFIX_CHECKPOINT_SPAN_TRIGGER
        &&& {
            ||| self.last_checkpoint_attempted_cut is None
            ||| self.last_checkpoint_attempted_cut->0.value < self.durable_batch.value
            ||| self.retry_checkpoint_at == Some(self.durable_batch)
        }
    }

    /// The ticket of the next checkpoint.
    pub open spec fn next_ticket(self) -> CheckpointTicket {
        CheckpointTicket {
            source: self.seal.generation,
            cut: self.durable_batch,
            attempt: AttemptId {
                owner_claim: self.claim.generation,
                local_counter: self.checkpoint_attempt,
            },
        }
    }

    /// The state after the next checkpoint was planned.
    pub open spec fn checkpointing(self) -> Self {
        WriterModel {
            checkpoint_attempt: (self.checkpoint_attempt + 1) as u64,
            active_checkpoint: Some(self.next_ticket()),
            last_checkpoint_attempted_cut: Some(self.durable_batch),
            retry_checkpoint_at: None,
            ..self
        }
    }

    /// The publication is of a checkpoint of this writer: it advances the writer's Seal
    /// by one generation to the ticket's cut.
    pub open spec fn installs(self, ticket: CheckpointTicket, install: CheckpointInstall) -> bool {
        &&& install.source@ == self.seal
        &&& install.successor.wf()
        &&& self.is_successor(ticket, install.successor@)
        &&& install.snapshot.wf()
    }

    /// The Seal is where a checkpoint of this writer leads.
    pub open spec fn is_successor(self, ticket: CheckpointTicket, successor: SealModel) -> bool {
        &&& successor.partition == self.seal.partition
        &&& successor.generation.value == self.seal.generation.value + 1
        &&& successor.replay == (WalReplayPoint::Through {
            batch: ticket.cut,
            owner: self.claim.owner,
        })
    }

    /// The state after a checkpoint of `snapshot` was published as `successor`.
    pub open spec fn installed(self, successor: SealModel, snapshot: ForestModel) -> Self {
        WriterModel { seal: successor, base: snapshot, active_checkpoint: None, ..self }
    }

    /// Without a flight and without waiting commands, admitted and durable state
    /// are equal.
    pub proof fn law_quiescent_states_agree(self)
        requires
            self.wf(),
            self.is_quiescent(),
        ensures
            self.admitted == self.durable,
    {
    }

    /// A command that settles at once, refused or not, changes neither admitted nor
    /// durable state and consumes no coordinate: at most it arms a checkpoint retry.
    pub proof fn law_settled_commands_change_only_retry_accounting(self, envelope: EnvelopeModel)
        ensures
            self.after_command(envelope).1 is Some ==> self.after_command(envelope).0 == (WriterModel {
                retry_checkpoint_at: self.after_command(envelope).0.retry_checkpoint_at,
                ..self
            }),
    {
    }

    /// A barrier without facts is answered without a RUN and consumes no coordinate.
    pub proof fn law_idempotent_barrier_consumes_no_coordinate(self)
        requires
            self.wf(),
            self.take_flight().1 is Replies,
        ensures
            self.take_flight().0.next_batch == self.next_batch,
            self.take_flight().0.durable_batch == self.durable_batch,
            self.take_flight().0.admitted == self.take_flight().0.durable,
    {
        assert(barrier_facts(self.pending) =~= Seq::empty());
    }

    /// Durability makes exactly the facts that were admitted into the RUN durable,
    /// and releases their replies in admission order; what was admitted behind the
    /// flight stays admitted and waits.
    pub proof fn law_durability_lands_the_admitted_facts(self)
        requires
            self.wf(),
            self.take_flight().1 is Run,
        ensures
            ({
                let after = self.take_flight().0.record_durable();
                &&& after.durable == self.admitted
                &&& after.is_quiescent()
                &&& after.durable_batch == self.next_batch
                &&& barrier_replies(self.take_flight().0.flight->0.commands) == barrier_replies(
                    self.pending,
                )
            }),
    {
    }

    /// Every RUN in flight leaves a coordinate for the next claimant's FENCE inside
    /// the replay bound.
    pub proof fn law_flight_leaves_fence_room(self)
        requires
            self.wf(),
            self.flight is Some,
        ensures
            self.next_batch.value - self.seal.replay.covered() <= WAL_SUFFIX_COORDINATES_MAX_V2,
    {
    }
}

proof fn lemma_barrier_push(commands: Seq<PendingModel>, command: PendingModel)
    ensures
        barrier_facts(commands.push(command)) == (match command.fact {
            Some(fact) => barrier_facts(commands).push(fact),
            None => barrier_facts(commands),
        }),
{
    assert(commands.push(command).drop_last() =~= commands);
}

/// The first waiting commands' facts fold when all waiting facts do.
proof fn lemma_barrier_prefix_folds(
    forest: ForestModel,
    batch: BatchId,
    commands: Seq<PendingModel>,
    count: int,
)
    requires
        0 <= count <= commands.len(),
        forest.fold_all(batch, barrier_facts(commands)) is Ok,
    ensures
        forest.fold_all(batch, barrier_facts(commands.take(count))) is Ok,
    decreases commands.len() - count,
{
    if count == commands.len() {
        assert(commands.take(count) =~= commands);
    } else {
        lemma_barrier_prefix_folds(forest, batch, commands, count + 1);
        let longer = commands.take(count + 1);
        assert(longer.drop_last() =~= commands.take(count));
        if let Some(fact) = longer.last().fact {
            let facts = barrier_facts(longer);
            assert(facts.drop_last() =~= barrier_facts(commands.take(count)));
        }
    }
}

/// There are no more waiting facts than waiting commands.
pub proof fn lemma_barrier_len(commands: Seq<PendingModel>)
    ensures
        barrier_facts(commands).len() <= commands.len(),
    decreases commands.len(),
{
    if commands.len() > 0 {
        lemma_barrier_len(commands.drop_last());
    }
}

/// Every waiting fact is valid.
pub proof fn lemma_barrier_facts_fit(commands: Seq<PendingModel>, i: int)
    requires
        commands_fit(commands),
        0 <= i < barrier_facts(commands).len(),
    ensures
        barrier_facts(commands)[i].wf(),
    decreases commands.len(),
{
    if commands.len() > 0 {
        let rest = commands.drop_last();
        assert(commands_fit(rest)) by {
            assert forall|k: int| #![trigger rest[k]] 0 <= k < rest.len() implies (
            rest[k].fact matches Some(fact) ==> fact.wf()) by {
                assert(rest[k] == commands[k]);
            }
        }
        if i < barrier_facts(rest).len() {
            lemma_barrier_facts_fit(rest, i);
        }
        assert(commands[commands.len() - 1] == commands.last());
    }
}

/// Waiting facts inside the protocol's bounds are estimated at no more than the
/// worst case for each.
proof fn lemma_barrier_estimate(commands: Seq<PendingModel>)
    requires
        commands_fit(commands),
    ensures
        crate::domain::wal::facts_estimate(barrier_facts(commands)) <= commands.len()
            * WAL_FACT_ENCODED_BYTES_ESTIMATE_MAX,
    decreases commands.len(),
{
    if commands.len() > 0 {
        let rest = commands.drop_last();
        assert(commands_fit(rest)) by {
            assert forall|i: int| #![trigger rest[i]] 0 <= i < rest.len() implies (
            rest[i].fact matches Some(fact) ==> fact.wf()) by {
                assert(rest[i] == commands[i]);
            }
        }
        lemma_barrier_estimate(rest);
        assert(commands[commands.len() - 1] == commands.last());
        if let Some(fact) = commands.last().fact {
            let facts = barrier_facts(commands);
            assert(facts.drop_last() =~= barrier_facts(rest));
            assert(fact.wf());
        }
        assert((commands.len() - 1) * WAL_FACT_ENCODED_BYTES_ESTIMATE_MAX
            + WAL_FACT_ENCODED_BYTES_ESTIMATE_MAX == commands.len()
            * WAL_FACT_ENCODED_BYTES_ESTIMATE_MAX) by (nonlinear_arith);
    }
}

impl WriterState {
    pub open spec fn wf(self) -> bool {
        self@.wf()
    }

    /// The state of a writer that recovered `forest` through `durable_batch`.
    pub fn new(
        claim: AuthoredClaim,
        seal: Seal,
        base: Forest,
        forest: Forest,
        durable_batch: BatchId,
        next_batch: BatchId,
    ) -> (state: Self)
        requires
            claim.wf(),
            seal.wf(),
            claim.generation.value <= seal.generation.value,
            base.wf(),
            forest.wf(),
            durable_batch.wf(),
            next_batch.value == durable_batch.value + 1,
            seal.replay.covered() <= durable_batch.value,
        ensures
            state.wf(),
            state@ == (WriterModel {
                claim,
                seal: seal@,
                base: base@,
                admitted: forest@,
                durable: forest@,
                durable_batch,
                next_batch,
                pending: Seq::empty(),
                flight: None,
                checkpoint_attempt: 0,
                last_checkpoint_attempted_cut: None,
                retry_checkpoint_at: None,
                active_checkpoint: None,
            }),
    {
        let state = WriterState {
            claim,
            seal,
            base,
            admitted: forest.clone(),
            durable: forest,
            durable_batch,
            next_batch,
            pending: Vec::new(),
            flight: None,
            checkpoint_attempt: 0,
            last_checkpoint_attempted_cut: None,
            retry_checkpoint_at: None,
            active_checkpoint: None,
        };
        assert(state@.pending =~= Seq::empty());
        state
    }

    pub fn partition(&self) -> (partition: PartitionId)
        ensures
            partition == self@.seal.partition,
    {
        self.seal.partition()
    }

    pub fn durable_forest(&self) -> (forest: &Forest)
        ensures
            *forest == self.durable,
    {
        &self.durable
    }

    pub fn has_flight(&self) -> (flying: bool)
        ensures
            flying == self@.flight is Some,
    {
        self.flight.is_some()
    }

    pub fn active_checkpoint(&self) -> (ticket: Option<CheckpointTicket>)
        ensures
            ticket == self@.active_checkpoint,
    {
        self.active_checkpoint
    }

    pub fn is_quiescent(&self) -> (quiescent: bool)
        ensures
            quiescent == self@.is_quiescent(),
    {
        self.flight.is_none() && self.pending.len() == 0
    }

    /// What the waiting facts are estimated at in a RUN.
    pub fn buffered_bytes(&self) -> (bytes: usize)
        requires
            self.wf(),
        ensures
            bytes == crate::domain::wal::facts_estimate(barrier_facts(self@.pending)),
    {
        let ghost said = self@.pending;
        let mut bytes: usize = 0;
        let mut at: usize = 0;
        proof {
            assert(said.take(0) =~= Seq::empty());
        }
        while at < self.pending.len()
            invariant
                at <= self.pending.len(),
                said == commands_model(self.pending@),
                commands_fit(said),
                said.len() <= WAL_RUN_FACTS_MAX,
                bytes == crate::domain::wal::facts_estimate(barrier_facts(said.take(at as int))),
                bytes <= at * WAL_FACT_ENCODED_BYTES_ESTIMATE_MAX,
            decreases self.pending.len() - at,
        {
            proof {
                assert(said[at as int] == self.pending@[at as int]@);
                assert(said.take(at + 1) =~= said.take(at as int).push(said[at as int]));
                lemma_barrier_push(said.take(at as int), said[at as int]);
                assert(at * WAL_FACT_ENCODED_BYTES_ESTIMATE_MAX
                    + WAL_FACT_ENCODED_BYTES_ESTIMATE_MAX == (at + 1)
                    * WAL_FACT_ENCODED_BYTES_ESTIMATE_MAX) by (nonlinear_arith);
                assert(at * WAL_FACT_ENCODED_BYTES_ESTIMATE_MAX <= WAL_RUN_FACTS_MAX
                    * WAL_FACT_ENCODED_BYTES_ESTIMATE_MAX) by (nonlinear_arith)
                    requires
                        at <= WAL_RUN_FACTS_MAX,
                ;
            }
            if let Some(fact) = &self.pending[at].fact {
                let ghost facts = barrier_facts(said.take(at + 1));
                assert(facts.drop_last() =~= barrier_facts(said.take(at as int)));
                assert(facts.last() == fact@);
                assert(fact@.wf());
                bytes = bytes + fact.estimated_encoded_bytes();
            }
            at += 1;
        }
        assert(said.take(at as int) =~= said);
        bytes
    }

    /// Decides one command: it settles at once or waits for durability. Commands are
    /// admitted behind a flight or into a quiescent writer.
    pub fn admit_command(&mut self, envelope: CommandEnvelope) -> (decision: AdmissionDecision)
        requires
            old(self).wf(),
            envelope@.wf(),
            old(self)@.flight is None ==> old(self)@.pending.len() == 0,
        ensures
            final(self).wf(),
            final(self)@ == old(self)@.after_command(envelope@).0,
            decision == (match old(self)@.after_command(envelope@).1 {
                Some(completion) => AdmissionDecision::Settled(completion),
                None => AdmissionDecision::Queued,
            }),
    {
        if self.pending.len() == WAL_RUN_FACTS_MAX {
            return AdmissionDecision::Settled(envelope.refusal(AdmissionRefusal::Overloaded));
        }
        let batch = self.next_batch;
        match envelope {
            CommandEnvelope::Create { command, reply } => match admit_create(
                &self.admitted,
                &command,
                batch,
            ) {
                Ok(CreateAdmission::Fact(admitted)) => self.accept_fact(
                    admitted,
                    Completion::Create { outcome: Ok(CreateOutcome::Created), reply },
                ),
                Ok(CreateAdmission::AlreadyExists) => self.accept_idempotent(
                    Completion::Create { outcome: Ok(CreateOutcome::AlreadyExists), reply },
                ),
                Err(refusal) => AdmissionDecision::Settled(
                    Completion::Create { outcome: Err(refusal), reply },
                ),
            },
            CommandEnvelope::Close { path, reply } => match admit_close(
                &self.admitted,
                &path,
                batch,
            ) {
                Ok(CloseAdmission::Fact(admitted)) => self.accept_fact(
                    admitted,
                    Completion::Close { outcome: Ok(CloseStreamOutcome::Closed), reply },
                ),
                Ok(CloseAdmission::AlreadyClosed) => self.accept_idempotent(
                    Completion::Close { outcome: Ok(CloseStreamOutcome::AlreadyClosed), reply },
                ),
                Err(refusal) => AdmissionDecision::Settled(
                    Completion::Close { outcome: Err(refusal), reply },
                ),
            },
            CommandEnvelope::Delete { path, reply } => match admit_delete(
                &self.admitted,
                &path,
                batch,
            ) {
                Ok(admitted) => self.accept_fact(
                    admitted,
                    Completion::Delete { outcome: Ok(()), reply },
                ),
                Err(refusal) => AdmissionDecision::Settled(
                    Completion::Delete { outcome: Err(refusal), reply },
                ),
            },
        }
    }

    fn accept_fact(&mut self, admitted: AdmittedCommand, completion: Completion) -> (decision:
        AdmissionDecision)
        requires
            old(self).wf(),
            old(self)@.pending.len() < WAL_RUN_FACTS_MAX,
            admitted.extends(old(self)@.admitted, old(self).next_batch),
            admitted.fact@.wf(),
        ensures
            final(self).wf(),
            crate::engine::admission::suffix_room(
                old(self)@.seal.replay.covered(),
                old(self)@.next_batch,
            ) ==> decision == AdmissionDecision::Queued && final(self)@ == (WriterModel {
                admitted: admitted.forest@,
                pending: old(self)@.pending.push(
                    PendingModel { fact: Some(admitted.fact@), completion },
                ),
                ..old(self)@
            }),
            !crate::engine::admission::suffix_room(
                old(self)@.seal.replay.covered(),
                old(self)@.next_batch,
            ) ==> decision == AdmissionDecision::Settled(
                completion.spec_refusal(AdmissionRefusal::Overloaded),
            ) && final(self)@ == (WriterModel {
                retry_checkpoint_at: Some(old(self)@.durable_batch),
                ..old(self)@
            }),
    {
        if !decide_suffix_room(self.seal.replay().batch(), self.next_batch) {
            self.retry_checkpoint_at = Some(self.durable_batch);
            return AdmissionDecision::Settled(completion.refusal(AdmissionRefusal::Overloaded));
        }
        let ghost before = self@;
        let command = PendingCommand { fact: Some(admitted.fact), completion };
        let ghost said = command@;
        self.admitted = admitted.forest;
        self.pending.push(command);
        proof {
            assert(self@.pending =~= before.pending.push(said));
            lemma_barrier_push(before.pending, said);
            let facts = barrier_facts(self@.pending);
            assert(facts.drop_last() =~= barrier_facts(before.pending));
            assert(commands_fit(self@.pending)) by {
                assert forall|i: int| #![trigger self@.pending[i]] 0 <= i < self@.pending.len() implies (
                self@.pending[i].fact matches Some(fact) ==> fact.wf()) by {
                    if i < before.pending.len() {
                        assert(self@.pending[i] == before.pending[i]);
                    }
                }
            }
        }
        AdmissionDecision::Queued
    }

    fn accept_idempotent(&mut self, completion: Completion) -> (decision: AdmissionDecision)
        requires
            old(self).wf(),
            old(self)@.pending.len() < WAL_RUN_FACTS_MAX,
        ensures
            final(self).wf(),
            old(self)@.flight is None ==> decision == AdmissionDecision::Settled(completion)
                && final(self)@ == old(self)@,
            old(self)@.flight is Some ==> decision == AdmissionDecision::Queued && final(self)@ == (
            WriterModel {
                pending: old(self)@.pending.push(PendingModel { fact: None, completion }),
                ..old(self)@
            }),
    {
        if self.flight.is_none() {
            return AdmissionDecision::Settled(completion);
        }
        let ghost before = self@;
        let command = PendingCommand { fact: None, completion };
        let ghost said = command@;
        self.pending.push(command);
        proof {
            assert(self@.pending =~= before.pending.push(said));
            lemma_barrier_push(before.pending, said);
            assert(commands_fit(self@.pending)) by {
                assert forall|i: int| #![trigger self@.pending[i]] 0 <= i < self@.pending.len() implies (
                self@.pending[i].fact matches Some(fact) ==> fact.wf()) by {
                    if i < before.pending.len() {
                        assert(self@.pending[i] == before.pending[i]);
                    }
                }
            }
        }
        AdmissionDecision::Queued
    }

    /// Turns the pending barrier into one RUN, or into replies when no fact waits.
    pub fn take_flight(&mut self) -> (decision: FlightDecision)
        requires
            old(self).wf(),
        ensures
            final(self).wf(),
            final(self)@ == old(self)@.take_flight().0,
            match decision {
                FlightDecision::Run(encoded) => {
                    &&& old(self)@.take_flight().1 == BarrierModel::Run(old(self)@.pending_run())
                    &&& encoded.carries(old(self)@.pending_run())
                },
                FlightDecision::Replies(replies) => old(self)@.take_flight().1
                    == BarrierModel::Replies(replies@),
                FlightDecision::Idle => old(self)@.take_flight().1 == BarrierModel::Idle,
            },
    {
        if self.flight.is_some() || self.pending.len() == 0 {
            return FlightDecision::Idle;
        }
        let ghost before = self@;
        let facts = pending_facts(&self.pending);
        let mut commands: Vec<PendingCommand> = Vec::new();
        std::mem::swap(&mut commands, &mut self.pending);
        proof {
            assert(self@.pending =~= Seq::empty());
            assert(barrier_facts(Seq::<PendingModel>::empty()) =~= Seq::empty());
            lemma_barrier_len(before.pending);
            lemma_barrier_estimate(before.pending);
        }
        if facts.len() == 0 {
            self.admitted = self.durable.clone();
            return FlightDecision::Replies(completions(&commands));
        }
        let batch = self.next_batch;
        let run = WalFacts { values: facts };
        let object = WalObject::new(self.partition(), batch, self.claim.owner(), WalBody::Run(run));
        proof {
            assert(object@ == before.pending_run());
            assert(before.pending.len() * WAL_FACT_ENCODED_BYTES_ESTIMATE_MAX <= WAL_RUN_FACTS_MAX
                * WAL_FACT_ENCODED_BYTES_ESTIMATE_MAX) by (nonlinear_arith)
                requires
                    before.pending.len() <= WAL_RUN_FACTS_MAX,
            ;
        }
        match EncodedWal::new(&object) {
            Ok(encoded) => {
                self.next_batch = BatchId { value: batch.value + 1 };
                self.flight = Some(InFlight { batch, commands });
                FlightDecision::Run(encoded)
            },
            Err(_error) => {
                assert(false);
                FlightDecision::Idle
            },
        }
    }

    /// Folds the facts in flight into durable state and releases their replies.
    pub fn record_wal_durable(&mut self, batch: BatchId) -> (durable: DurableWal)
        requires
            old(self).wf(),
            old(self)@.flight matches Some(flight) && flight.batch == batch,
        ensures
            final(self).wf(),
            final(self)@ == old(self)@.record_durable(),
            durable.replies@ == barrier_replies(old(self)@.flight->0.commands),
            durable.forest@ == final(self)@.durable,
    {
        let ghost before = self@;
        match self.flight.take() {
            Some(flight) => {
                let ghost said = commands_model(flight.commands@);
                let ghost landed = before.landed();
                assert(said == before.flight->0.commands);
                let mut at: usize = 0;
                assert(said.take(0) =~= Seq::empty());
                while at < flight.commands.len()
                    invariant
                        at <= flight.commands.len(),
                        said == commands_model(flight.commands@),
                        commands_fit(said),
                        batch.wf(),
                        before.durable.fold_all(batch, barrier_facts(said)) == landed,
                        landed is Ok,
                        before.durable.fold_all(batch, barrier_facts(said.take(at as int))) == Ok::<
                            ForestModel,
                            FoldContradiction,
                        >(self.durable@),
                        self.durable.wf(),
                        self@ == (WriterModel { durable: self.durable@, flight: None, ..before }),
                    decreases flight.commands.len() - at,
                {
                    proof {
                        let longer = said.take(at + 1);
                        assert(longer =~= said.take(at as int).push(said[at as int]));
                        lemma_barrier_push(said.take(at as int), said[at as int]);
                        lemma_barrier_prefix_folds(before.durable, batch, said, at + 1);
                        if let Some(fact) = said[at as int].fact {
                            assert(fact.wf());
                            let facts = barrier_facts(longer);
                            assert(facts.drop_last() =~= barrier_facts(said.take(at as int)));
                            assert(facts.last() == fact);
                        }
                    }
                    if let Some(fact) = &flight.commands[at].fact {
                        let applied = self.durable.strict_fold(batch, fact);
                        assert(applied is Ok);
                    }
                    at += 1;
                }
                assert(said.take(at as int) =~= said);
                self.durable_batch = batch;
                if self.pending.len() == 0 {
                    proof {
                        assert(self@.pending =~= Seq::empty());
                        assert(self@.admitted == self@.durable);
                    }
                    self.admitted = self.durable.clone();
                }
                DurableWal { replies: completions(&flight.commands), forest: self.durable.clone() }
            },
            None => {
                assert(false);
                DurableWal { replies: Vec::new(), forest: Forest::empty() }
            },
        }
    }

    /// Drops a RUN whose outcome ends this writer. Its facts stay admitted, so the
    /// state can only be torn down after this.
    pub fn discard_wal_flight(&mut self, batch: BatchId)
        requires
            old(self)@.flight matches Some(flight) && flight.batch == batch,
        ensures
            final(self)@ == (WriterModel { flight: None, ..old(self)@ }),
    {
        self.flight = None;
    }

    /// Plans a checkpoint of the durable head when one is due.
    pub fn take_checkpoint(&mut self) -> (plan: Option<CheckpointPlan>)
        requires
            old(self).wf(),
            old(self)@.checkpoint_due() ==> old(self).checkpoint_attempt < u64::MAX,
        ensures
            final(self).wf(),
            plan is Some == old(self)@.checkpoint_due(),
            plan is None ==> final(self)@ == old(self)@,
            plan matches Some(plan) ==> {
                &&& final(self)@ == old(self)@.checkpointing()
                &&& plan.ticket == old(self)@.next_ticket()
                &&& plan.input.source@ == old(self)@.seal
                &&& plan.input.base@ == old(self)@.base
                &&& plan.input.snapshot@ == old(self)@.durable
                &&& plan.input.cut == old(self)@.durable_batch
                &&& plan.input.attempt == old(self)@.next_ticket().attempt
                &&& plan.input.cut.value > plan.input.source@.replay.covered()
                &&& plan.input.wf()
            },
    {
        if self.active_checkpoint.is_some() || suffix_span(self.seal.replay(), self.durable_batch)
            < WAL_SUFFIX_CHECKPOINT_SPAN_TRIGGER {
            return None;
        }
        let head_is_unattempted = match self.last_checkpoint_attempted_cut {
            None => true,
            Some(attempted) => attempted.value < self.durable_batch.value,
        };
        let retry_is_armed = match self.retry_checkpoint_at {
            None => false,
            Some(at) => at == self.durable_batch,
        };
        if !head_is_unattempted && !retry_is_armed {
            return None;
        }
        let attempt = AttemptId::new(self.claim.generation(), self.checkpoint_attempt);
        self.checkpoint_attempt = self.checkpoint_attempt + 1;
        let ticket = CheckpointTicket {
            source: self.seal.generation(),
            cut: self.durable_batch,
            attempt,
        };
        let input = CheckpointInput {
            source: self.seal.clone(),
            base: self.base.clone(),
            snapshot: self.durable.clone(),
            cut: self.durable_batch,
            attempt,
        };
        self.active_checkpoint = Some(ticket);
        self.last_checkpoint_attempted_cut = Some(self.durable_batch);
        self.retry_checkpoint_at = None;
        Some(CheckpointPlan { input, ticket })
    }

    /// Ends the active checkpoint without a new Seal.
    pub fn abandon_checkpoint(&mut self, ticket: CheckpointTicket)
        requires
            old(self).wf(),
            old(self)@.active_checkpoint == Some(ticket),
        ensures
            final(self).wf(),
            final(self)@ == (WriterModel { active_checkpoint: None, ..old(self)@ }),
    {
        self.active_checkpoint = None;
    }

    /// Whether a Seal is where the ticket's checkpoint leads.
    pub fn expects_successor(&self, ticket: CheckpointTicket, successor: &Seal) -> (expected: bool)
        ensures
            expected == self@.is_successor(ticket, successor@),
    {
        let generation: u64 = self.seal.generation().value;
        successor.partition().is_same(&self.seal.partition()) && generation < u64::MAX
            && successor.generation().value == generation + 1 && match successor.replay() {
            WalReplayPoint::Through { batch, owner } => batch.value == ticket.cut.value
                && owner.generation.value == self.claim.owner().generation.value,
            WalReplayPoint::Genesis => false,
        }
    }

    /// Advances to a published checkpoint: the successor Seal and its snapshot become
    /// the base, and admitted, durable and pending state stay as they are.
    pub fn install_checkpoint(&mut self, ticket: CheckpointTicket, install: CheckpointInstall) -> (
        installed: InstalledCheckpoint)
        requires
            old(self).wf(),
            old(self)@.active_checkpoint == Some(ticket),
            old(self)@.installs(ticket, install),
        ensures
            final(self).wf(),
            final(self)@ == old(self)@.installed(install.successor@, install.snapshot@),
            installed.source@ == old(self)@.seal,
            installed.successor@ == install.successor@,
            installed.forest@ == old(self)@.durable,
    {
        self.active_checkpoint = None;
        let CheckpointInstall { source, successor, snapshot } = install;
        self.seal = successor.clone();
        self.base = snapshot;
        InstalledCheckpoint { source, successor, forest: self.durable.clone() }
    }
}

/// How many coordinates the durable head is ahead of the replay cut.
fn suffix_span(replay: WalReplayPoint, durable_batch: BatchId) -> (span: u64)
    requires
        replay.covered() <= durable_batch.value,
    ensures
        span == durable_batch.value - replay.covered(),
{
    let cut: u64 = match replay {
        WalReplayPoint::Genesis => 0,
        WalReplayPoint::Through { batch, owner: _ } => batch.value,
    };
    durable_batch.value - cut
}

fn pending_facts(commands: &Vec<PendingCommand>) -> (facts: Vec<OperationFact>)
    ensures
        crate::domain::wal::facts_model(facts@) == barrier_facts(commands_model(commands@)),
{
    let ghost said = commands_model(commands@);
    let mut facts: Vec<OperationFact> = Vec::new();
    let mut at: usize = 0;
    proof {
        assert(said.take(0) =~= Seq::empty());
        assert(crate::domain::wal::facts_model(facts@) =~= Seq::empty());
    }
    while at < commands.len()
        invariant
            at <= commands.len(),
            said == commands_model(commands@),
            crate::domain::wal::facts_model(facts@) == barrier_facts(said.take(at as int)),
        decreases commands.len() - at,
    {
        let ghost before = facts@;
        proof {
            assert(said.take(at + 1) =~= said.take(at as int).push(said[at as int]));
            lemma_barrier_push(said.take(at as int), said[at as int]);
        }
        if let Some(fact) = &commands[at].fact {
            facts.push(fact.clone());
            assert(crate::domain::wal::facts_model(facts@) =~= crate::domain::wal::facts_model(
                before,
            ).push(fact@));
        }
        at += 1;
    }
    assert(said.take(at as int) =~= said);
    facts
}

fn completions(commands: &Vec<PendingCommand>) -> (replies: Vec<Completion>)
    ensures
        replies@ == barrier_replies(commands_model(commands@)),
{
    let ghost said = commands_model(commands@);
    let mut replies: Vec<Completion> = Vec::new();
    let mut at: usize = 0;
    while at < commands.len()
        invariant
            at <= commands.len(),
            said == commands_model(commands@),
            replies@ == barrier_replies(said).take(at as int),
        decreases commands.len() - at,
    {
        replies.push(commands[at].completion);
        assert(replies@ =~= barrier_replies(said).take(at + 1));
        at += 1;
    }
    assert(replies@ =~= barrier_replies(said));
    replies
}

} // verus!
