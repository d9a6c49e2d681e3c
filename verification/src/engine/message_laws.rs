//! What failures of the engine read as.

use vstd::prelude::*;

use crate::domain::coordinate::{BatchId, OwnerToken, SealGeneration};
use crate::engine::admission::AdmissionRefusal;
use crate::engine::bootstrap_exit::BootstrapExit;
use crate::engine::forest::{FoldContradiction, ForestContradiction};
use crate::engine::naming::{batch_text, generation_text, owner_text};
use crate::engine::options::OptionsError;
use crate::engine::prepare::CheckpointContradiction;
use crate::engine::recovery::{fence_text, BoundedFence};
use crate::engine::service::{CommandError, OpenError, StreamError};
use crate::engine::store::WalDeleteRefusal;

verus! {

/// What a refusal reads as.
pub proof fn law_refusal_messages(error: AdmissionRefusal, message: String)
    requires
        call_ensures(AdmissionRefusal::to_string, (&error,), message),
    ensures
        message@ == (match error {
            AdmissionRefusal::PathOccupied => "stream path is already occupied"@,
            AdmissionRefusal::PathCapacityExhausted => "partition path capacity is exhausted"@,
            AdmissionRefusal::PathNotLive => "stream path is not live"@,
            AdmissionRefusal::Overloaded => "partition writer is at a bounded capacity limit"@,
        }),
{
}

/// What a fact that does not fold reads as.
pub proof fn law_fold_messages(error: FoldContradiction, message: String)
    requires
        call_ensures(FoldContradiction::to_string, (&error,), message),
    ensures
        message@ == (match error {
            FoldContradiction::PathOccupied => "path is already occupied"@,
            FoldContradiction::PathCapacityExhausted => "partition path capacity is exhausted"@,
            FoldContradiction::UidNotDenseSuccessor => "stream uid is not the dense successor"@,
            FoldContradiction::PathNotLive => "path is not live"@,
            FoldContradiction::PathUidMismatch => "path uid does not match"@,
            FoldContradiction::StreamAlreadyClosed => "stream is already closed"@,
        }),
{
}

/// What rows that form no forest read as.
pub proof fn law_forest_messages(error: ForestContradiction, message: String)
    requires
        call_ensures(ForestContradiction::to_string, (&error,), message),
    ensures
        message@ == (match error {
            ForestContradiction::UidGap => "Directory stream uids are not dense and unique"@,
            ForestContradiction::CountMismatch =>
                "Directory row count differs from the maximum allocated stream uid"@,
            ForestContradiction::LiveWithoutRecord =>
                "a Live Directory row has no Ledger record"@,
            ForestContradiction::RecordWithoutLive =>
                "a Ledger record has no Live Directory row"@,
            ForestContradiction::TombstoneWithRecord =>
                "a Tombstone Directory row still has a Ledger record"@,
        }),
{
}

/// What a failed open reads as.
pub proof fn law_open_messages(error: OpenError, message: String)
    requires
        call_ensures(OpenError::to_string, (&error,), message),
    ensures
        message@ == (match error {
            OpenError::Retryable { detail } => "open should be retried: "@ + detail@,
            OpenError::Fenced { observed } => "another writer took the partition at Seal generation "@
                + crate::engine::naming::generation_chars(observed),
            OpenError::Contradiction { detail } =>
                "durable state contradicts the storage model: "@ + detail@,
        }),
{
}

/// What a failed stream operation reads as.
pub proof fn law_stream_messages(error: StreamError, message: String)
    requires
        call_ensures(StreamError::to_string, (&error,), message),
    ensures
        message@ == (match error {
            StreamError::Occupied => "stream path is already occupied"@,
            StreamError::CapacityExhausted => "partition stream capacity is exhausted"@,
            StreamError::NotLive => "stream path is not live"@,
            StreamError::Overloaded =>
                "partition is at a bounded capacity limit; retry later"@,
            StreamError::Unavailable => "partition is no longer serving"@,
            StreamError::Indeterminate =>
                "operation outcome is indeterminate; reopen and inspect"@,
        }),
{
}

/// What a failed command reads as.
pub proof fn law_command_messages(error: CommandError, message: String)
    requires
        call_ensures(CommandError::to_string, (&error,), message),
    ensures
        message@ == (match error {
            CommandError::Refused(refusal) => "command was refused: "@ + refusal.spec_message(),
            CommandError::Unavailable => "partition writer is unavailable"@,
            CommandError::Indeterminate =>
                "command outcome is indeterminate; recover from durable evidence"@,
        }),
{
}

/// What an option that could not be set reads as.
pub proof fn law_options_messages(error: OptionsError, message: String)
    requires
        call_ensures(OptionsError::to_string, (&error,), message),
    ensures
        message@ == (match error {
            OptionsError::FlushBufferBytesZero => "flush buffer byte budget must be nonzero"@,
            OptionsError::FlushBufferBytesOverMax { bytes } => "flush buffer byte budget "@
                + crate::domain::text::number_chars(bytes as nat)
                + " exceeds the 4194304-byte WAL bound"@,
        }),
{
}

/// What an unfinished bootstrap reads as.
pub proof fn law_bootstrap_messages(exit: BootstrapExit, message: String)
    requires
        call_ensures(BootstrapExit::to_string, (&exit,), message),
    ensures
        message@ == (match exit {
            BootstrapExit::Retryable { detail } => "bootstrap should be retried: "@ + detail@,
            BootstrapExit::Fenced { observed } => "bootstrap claim was fenced by Seal generation "@
                + crate::engine::naming::generation_chars(observed),
            BootstrapExit::Contradiction { detail } =>
                "bootstrap found a durable contradiction: "@ + detail@,
        }),
{
}

/// How coordinates read in messages.
pub proof fn law_coordinate_names(
    generation: SealGeneration,
    batch: BatchId,
    owner: OwnerToken,
    fence: BoundedFence,
    texts: (String, String, String, String),
)
    requires
        call_ensures(generation_text, (generation,), texts.0),
        call_ensures(batch_text, (batch,), texts.1),
        call_ensures(owner_text, (owner,), texts.2),
        call_ensures(fence_text, (fence,), texts.3),
    ensures
        texts.0@ == "SealGeneration("@ + crate::domain::text::number_chars(generation.value as nat)
            + ")"@,
        texts.1@ == "BatchId("@ + crate::domain::text::number_chars(batch.value as nat) + ")"@,
        texts.2@ == "OwnerToken("@ + ("SealGeneration("@ + crate::domain::text::number_chars(
            owner.generation.value as nat,
        ) + ")"@) + ")"@,
        texts.3@ == "BoundedFence { batch: "@ + ("BatchId("@ + crate::domain::text::number_chars(
            fence.batch.value as nat,
        ) + ")"@) + ", next_batch: "@ + ("BatchId("@ + crate::domain::text::number_chars(
            fence.next_batch.value as nat,
        ) + ")"@) + " }"@,
{
}

/// What a FENCE that cannot be deleted reads as, and a checkpoint that cannot be prepared.
pub proof fn law_delete_and_checkpoint_messages(
    refusal: WalDeleteRefusal,
    refused: String,
    contradiction: CheckpointContradiction,
    contradicted: String,
)
    requires
        call_ensures(WalDeleteRefusal::to_string, (&refusal,), refused),
        call_ensures(CheckpointContradiction::to_string, (&contradiction,), contradicted),
    ensures
        refused@ == "WAL fence cannot become a delete proof"@,
        contradicted@ == contradiction.detail@,
{
}

} // verus!
