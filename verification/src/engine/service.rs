//! What an open partition shows its callers: immutable views, refusals and endings.

use vstd::prelude::*;

use crate::domain::coordinate::{BatchId, SealGeneration, StreamUid};
use crate::domain::directory::{DirectoryEntry, DirectoryKey};
use crate::domain::ledger::StreamRecord;
use crate::domain::protocol::{ExpiryPolicy, StreamContentType, StreamLifecycle};
use crate::domain::seal::WalReplayPoint;
use crate::engine::admission::AdmissionRefusal;
use crate::engine::bootstrap_exit::{BootstrapExit, ExitModel};
use crate::engine::forest::{Forest, ForestModel};
use crate::engine::naming::generation_text;

verus! {

/// The protocol-visible state of one stream.
#[derive(Debug, PartialEq, Eq)]
pub enum StreamStatus {
    Missing,
    Deleted,
    Live { content_type: StreamContentType, expiry: ExpiryPolicy, lifecycle: StreamLifecycle },
}

/// What a stream's state says.
pub enum StatusModel {
    Missing,
    Deleted,
    Live { content_type: Seq<char>, expiry: ExpiryPolicy, lifecycle: StreamLifecycle },
}

impl View for StreamStatus {
    type V = StatusModel;

    open spec fn view(&self) -> StatusModel {
        match *self {
            StreamStatus::Missing => StatusModel::Missing,
            StreamStatus::Deleted => StatusModel::Deleted,
            StreamStatus::Live { content_type, expiry, lifecycle } => StatusModel::Live {
                content_type: content_type@,
                expiry,
                lifecycle,
            },
        }
    }
}

/// The state of the stream at a path.
pub open spec fn spec_stream(forest: ForestModel, path: Seq<u8>) -> StatusModel {
    if !forest.directory.dom().contains(path) {
        StatusModel::Missing
    } else {
        match forest.directory[path] {
            DirectoryEntry::Tombstone(_) => StatusModel::Deleted,
            DirectoryEntry::Live(uid) => {
                let record = forest.ledger[uid.value];
                StatusModel::Live {
                    content_type: record.content_type,
                    expiry: record.expiry,
                    lifecycle: record.lifecycle,
                }
            },
        }
    }
}

/// An immutable view of durable state.
#[derive(Debug, PartialEq, Eq)]
pub struct PublishedView {
    pub generation: SealGeneration,
    pub replay: WalReplayPoint,
    pub forest: Forest,
}

impl Clone for PublishedView {
    fn clone(&self) -> (copy: Self)
        ensures
            copy.generation == self.generation,
            copy.replay == self.replay,
            copy.forest@ == self.forest@,
    {
        PublishedView {
            generation: self.generation,
            replay: self.replay,
            forest: self.forest.clone(),
        }
    }
}

impl PublishedView {
    pub fn new(generation: SealGeneration, replay: WalReplayPoint, forest: Forest) -> (view: Self)
        ensures
            view == (PublishedView { generation, replay, forest }),
    {
        PublishedView { generation, replay, forest }
    }

    pub fn generation(&self) -> (generation: SealGeneration)
        ensures
            generation == self.generation,
    {
        self.generation
    }

    pub fn replay(&self) -> (replay: WalReplayPoint)
        ensures
            replay == self.replay,
    {
        self.replay
    }

    /// What a path holds.
    pub fn resolve(&self, path: &DirectoryKey) -> (entry: Option<DirectoryEntry>)
        ensures
            match entry {
                Some(entry) => self.forest@.directory.dom().contains(path@)
                    && self.forest@.directory[path@] == entry,
                None => !self.forest@.directory.dom().contains(path@),
            },
    {
        self.forest.resolve(path)
    }

    /// The record of a live stream.
    pub fn record(&self, uid: StreamUid) -> (record: Option<&StreamRecord>)
        ensures
            match record {
                Some(record) => self.forest@.ledger.dom().contains(uid.value)
                    && self.forest@.ledger[uid.value] == record@,
                None => !self.forest@.ledger.dom().contains(uid.value),
            },
    {
        self.forest.record(uid)
    }

    /// The protocol-visible state of the stream at a path.
    pub fn stream(&self, path: &DirectoryKey) -> (status: StreamStatus)
        requires
            self.forest.wf(),
        ensures
            status@ == spec_stream(self.forest@, path@),
    {
        match self.forest.resolve(path) {
            None => StreamStatus::Missing,
            Some(DirectoryEntry::Tombstone(_uid)) => StreamStatus::Deleted,
            Some(DirectoryEntry::Live(uid)) => {
                assert(self.forest@.live(path@) == Some(uid));
                match self.forest.record(uid) {
                    Some(record) => StreamStatus::Live {
                        content_type: record.content_type.clone(),
                        expiry: record.expiry,
                        lifecycle: record.lifecycle,
                    },
                    None => {
                        assert(false);
                        StreamStatus::Missing
                    },
                }
            },
        }
    }
}

/// Why one partition could not open.
#[derive(Debug, PartialEq, Eq)]
pub enum OpenError {
    Retryable { detail: String },
    Fenced { observed: SealGeneration },
    Contradiction { detail: String },
}

impl OpenError {
    pub open spec fn said(self) -> ExitModel {
        match self {
            OpenError::Retryable { detail } => ExitModel::Retryable(detail@),
            OpenError::Fenced { observed } => ExitModel::Fenced(observed),
            OpenError::Contradiction { detail } => ExitModel::Contradiction(detail@),
        }
    }

    pub open spec fn spec_message(self) -> Seq<char> {
        match self.said() {
            ExitModel::Retryable(detail) => "open should be retried: "@ + detail,
            ExitModel::Fenced(observed) => "another writer took the partition at Seal generation "@
                + crate::engine::naming::generation_chars(observed),
            ExitModel::Contradiction(detail) =>
                "durable state contradicts the storage model: "@ + detail,
        }
    }

    /// The message shown for this failure.
    pub fn to_string(&self) -> (message: String)
        ensures
            message@ == self.spec_message(),
    {
        match self {
            OpenError::Retryable { detail } => {
                let mut message = String::from_str("open should be retried: ");
                message.append(detail.as_str());
                message
            },
            OpenError::Fenced { observed } => {
                let mut message = String::from_str(
                    "another writer took the partition at Seal generation ",
                );
                message.append(generation_text(*observed).as_str());
                message
            },
            OpenError::Contradiction { detail } => {
                let mut message = String::from_str("durable state contradicts the storage model: ");
                message.append(detail.as_str());
                message
            },
        }
    }
}

/// Why one stream operation did not take effect.
#[derive(Debug, Clone, Copy, PartialEq, Eq, Structural)]
pub enum StreamError {
    Occupied,
    CapacityExhausted,
    NotLive,
    Overloaded,
    Unavailable,
    Indeterminate,
}

impl StreamError {
    pub open spec fn spec_message(self) -> Seq<char> {
        match self {
            StreamError::Occupied => "stream path is already occupied"@,
            StreamError::CapacityExhausted => "partition stream capacity is exhausted"@,
            StreamError::NotLive => "stream path is not live"@,
            StreamError::Overloaded =>
                "partition is at a bounded capacity limit; retry later"@,
            StreamError::Unavailable => "partition is no longer serving"@,
            StreamError::Indeterminate =>
                "operation outcome is indeterminate; reopen and inspect"@,
        }
    }

    /// The message shown for this failure.
    pub fn to_string(&self) -> (message: String)
        ensures
            message@ == self.spec_message(),
    {
        let text = match *self {
            StreamError::Occupied => "stream path is already occupied",
            StreamError::CapacityExhausted => "partition stream capacity is exhausted",
            StreamError::NotLive => "stream path is not live",
            StreamError::Overloaded => "partition is at a bounded capacity limit; retry later",
            StreamError::Unavailable => "partition is no longer serving",
            StreamError::Indeterminate => "operation outcome is indeterminate; reopen and inspect",
        };
        String::from_str(text)
    }
}

/// Why one command did not take effect.
#[derive(Debug, Clone, Copy, PartialEq, Eq, Structural)]
pub enum CommandError {
    Refused(AdmissionRefusal),
    Unavailable,
    Indeterminate,
}

impl CommandError {
    pub open spec fn spec_message(self) -> Seq<char> {
        match self {
            CommandError::Refused(refusal) => "command was refused: "@ + refusal.spec_message(),
            CommandError::Unavailable => "partition writer is unavailable"@,
            CommandError::Indeterminate =>
                "command outcome is indeterminate; recover from durable evidence"@,
        }
    }

    /// The message shown for this failure.
    pub fn to_string(&self) -> (message: String)
        ensures
            message@ == self.spec_message(),
    {
        match *self {
            CommandError::Refused(refusal) => {
                let mut message = String::from_str("command was refused: ");
                message.append(refusal.to_string().as_str());
                message
            },
            CommandError::Unavailable => String::from_str("partition writer is unavailable"),
            CommandError::Indeterminate => String::from_str(
                "command outcome is indeterminate; recover from durable evidence",
            ),
        }
    }
}

/// How the writer stopped.
#[derive(Debug, PartialEq, Eq)]
pub enum WriterExit {
    Shutdown,
    Fenced { batch: BatchId },
    Poisoned { batch: BatchId, detail: String },
    Contradiction { batch: BatchId, detail: String },
}

/// How one partition stopped serving.
#[derive(Debug, PartialEq, Eq)]
pub enum CloseOutcome {
    /// Every accepted command drained and the partition stopped cleanly.
    Shutdown,
    /// Another writer took the partition.
    Fenced,
    /// An operation may have taken effect without local evidence.
    Poisoned { detail: String },
    /// Durable state contradicts the storage model.
    Contradiction { detail: String },
}

/// What a failed bootstrap tells the caller that opens.
pub fn open_error(exit: BootstrapExit) -> (error: OpenError)
    ensures
        error.said() == exit@,
{
    match exit {
        BootstrapExit::Retryable { detail } => OpenError::Retryable { detail },
        BootstrapExit::Fenced { observed } => OpenError::Fenced { observed },
        BootstrapExit::Contradiction { detail } => OpenError::Contradiction { detail },
    }
}

pub open spec fn spec_stream_error(refusal: AdmissionRefusal) -> StreamError {
    match refusal {
        AdmissionRefusal::PathOccupied => StreamError::Occupied,
        AdmissionRefusal::PathCapacityExhausted => StreamError::CapacityExhausted,
        AdmissionRefusal::PathNotLive => StreamError::NotLive,
        AdmissionRefusal::Overloaded => StreamError::Overloaded,
    }
}

/// What a refused command tells its caller.
pub fn stream_error(refusal: AdmissionRefusal) -> (error: StreamError)
    ensures
        error == spec_stream_error(refusal),
{
    match refusal {
        AdmissionRefusal::PathOccupied => StreamError::Occupied,
        AdmissionRefusal::PathCapacityExhausted => StreamError::CapacityExhausted,
        AdmissionRefusal::PathNotLive => StreamError::NotLive,
        AdmissionRefusal::Overloaded => StreamError::Overloaded,
    }
}

/// What a waiter learns: the outcome, the refusal, or nothing because the writer
/// dropped it.
pub fn stream_outcome<Outcome>(answer: Option<Result<Outcome, AdmissionRefusal>>) -> (outcome: Result<
    Outcome,
    StreamError,
>)
    ensures
        outcome == (match answer {
            Some(Ok(outcome)) => Ok(outcome),
            Some(Err(refusal)) => Err(spec_stream_error(refusal)),
            None => Err(StreamError::Indeterminate),
        }),
{
    match answer {
        Some(Ok(outcome)) => Ok(outcome),
        Some(Err(refusal)) => Err(stream_error(refusal)),
        None => Err(StreamError::Indeterminate),
    }
}

/// What a command's waiter learns.
pub fn command_outcome<Outcome>(answer: Option<Result<Outcome, AdmissionRefusal>>) -> (outcome:
    Result<Outcome, CommandError>)
    ensures
        outcome == (match answer {
            Some(Ok(outcome)) => Ok(outcome),
            Some(Err(refusal)) => Err(CommandError::Refused(refusal)),
            None => Err(CommandError::Indeterminate),
        }),
{
    match answer {
        Some(Ok(outcome)) => Ok(outcome),
        Some(Err(refusal)) => Err(CommandError::Refused(refusal)),
        None => Err(CommandError::Indeterminate),
    }
}

/// How the end of the writer looks from outside.
pub fn close_outcome(exit: WriterExit) -> (outcome: CloseOutcome)
    ensures
        outcome == (match exit {
            WriterExit::Shutdown => CloseOutcome::Shutdown,
            WriterExit::Fenced { .. } => CloseOutcome::Fenced,
            WriterExit::Poisoned { detail, .. } => CloseOutcome::Poisoned { detail },
            WriterExit::Contradiction { detail, .. } => CloseOutcome::Contradiction { detail },
        }),
{
    match exit {
        WriterExit::Shutdown => CloseOutcome::Shutdown,
        WriterExit::Fenced { batch: _ } => CloseOutcome::Fenced,
        WriterExit::Poisoned { batch: _, detail } => CloseOutcome::Poisoned { detail },
        WriterExit::Contradiction { batch: _, detail } => CloseOutcome::Contradiction { detail },
    }
}

} // verus!
