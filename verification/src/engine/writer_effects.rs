//! What the writer makes of its effects' results.

use vstd::prelude::*;

use crate::domain::coordinate::BatchId;
use crate::engine::checkpoint::{CheckpointInstall, CheckpointTicket};
use crate::engine::completion::{CheckpointCompletion, CompletionModel};
use crate::engine::service::WriterExit;
use crate::engine::store::{StoreErrorModel, TypedStoreError, WalEstablishment};

verus! {

/// The exact work that one effect of the writer does.
#[derive(Debug, Clone, Copy, PartialEq, Eq, Structural)]
pub enum EffectKey {
    Wal { batch: BatchId },
    CheckpointPreparation { ticket: CheckpointTicket },
    SealPublication { ticket: CheckpointTicket },
    Collection { cut: BatchId },
}

/// Why an effect's task brought no result.
#[derive(Debug, Clone, Copy, PartialEq, Eq, Structural)]
pub enum TaskFailure {
    Cancelled,
    Panicked,
}

/// What the end of a writer says.
pub enum ExitModel {
    Shutdown,
    Fenced(BatchId),
    Poisoned(BatchId, Seq<char>),
    Contradiction(BatchId, Seq<char>),
}

impl WriterExit {
    pub open spec fn said(self) -> ExitModel {
        match self {
            WriterExit::Shutdown => ExitModel::Shutdown,
            WriterExit::Fenced { batch } => ExitModel::Fenced(batch),
            WriterExit::Poisoned { batch, detail } => ExitModel::Poisoned(batch, detail@),
            WriterExit::Contradiction { batch, detail } => ExitModel::Contradiction(batch, detail@),
        }
    }
}

/// How establishing a RUN ends the writer; not at all when the RUN is durable.
pub open spec fn wal_exit(
    batch: BatchId,
    result: Result<WalEstablishment, TypedStoreError>,
) -> Option<ExitModel> {
    match result {
        Ok(WalEstablishment::Durable) => None,
        Ok(WalEstablishment::Occupied) => Some(ExitModel::Fenced(batch)),
        Ok(WalEstablishment::UnresolvedAbsent) => Some(
            ExitModel::Poisoned(batch, "WAL create is unresolved"@),
        ),
        Err(error) => match error@ {
            StoreErrorModel::Retryable(detail) => Some(ExitModel::Poisoned(batch, detail)),
            StoreErrorModel::Rejected(detail) => Some(ExitModel::Poisoned(batch, detail)),
            StoreErrorModel::Contradiction(detail) => Some(
                ExitModel::Contradiction(batch, detail),
            ),
        },
    }
}

/// Decides what establishing a RUN comes to: only durability lets the writer go on, and
/// nothing is ever sent again.
pub fn settle_wal(batch: BatchId, result: Result<WalEstablishment, TypedStoreError>) -> (settled:
    Result<(), WriterExit>)
    ensures
        match settled {
            Ok(_) => wal_exit(batch, result) is None,
            Err(exit) => wal_exit(batch, result) == Some(exit.said()),
        },
{
    match result {
        Ok(WalEstablishment::Durable) => Ok(()),
        Ok(WalEstablishment::Occupied) => Err(WriterExit::Fenced { batch }),
        Ok(WalEstablishment::UnresolvedAbsent) => Err(
            WriterExit::Poisoned { batch, detail: String::from_str("WAL create is unresolved") },
        ),
        Err(error) => match error {
            TypedStoreError::Retryable { detail } => Err(WriterExit::Poisoned { batch, detail }),
            TypedStoreError::Rejected { detail } => Err(WriterExit::Poisoned { batch, detail }),
            TypedStoreError::Contradiction { detail } => Err(
                WriterExit::Contradiction { batch, detail },
            ),
        },
    }
}

/// How a checkpoint's end ends the writer; not at all when it is installed or abandoned.
pub open spec fn checkpoint_exit(cut: BatchId, completion: CompletionModel) -> Option<ExitModel> {
    match completion {
        CompletionModel::Installed => None,
        CompletionModel::Abandoned => None,
        CompletionModel::Fenced => Some(ExitModel::Fenced(cut)),
        CompletionModel::Poisoned(detail) => Some(ExitModel::Poisoned(cut, detail)),
        CompletionModel::Contradiction(detail) => Some(ExitModel::Contradiction(cut, detail)),
    }
}

/// Decides what a checkpoint's end comes to: a checkpoint to install, nothing where it
/// was abandoned, or the end of the writer.
pub fn settle_checkpoint(cut: BatchId, completion: CheckpointCompletion) -> (settled: Result<
    Option<CheckpointInstall>,
    WriterExit,
>)
    ensures
        match settled {
            Ok(Some(install)) => completion == CheckpointCompletion::Installed(install),
            Ok(None) => completion is Abandoned,
            Err(exit) => checkpoint_exit(cut, completion.said()) == Some(exit.said()),
        },
{
    match completion {
        CheckpointCompletion::Installed(install) => Ok(Some(install)),
        CheckpointCompletion::Abandoned => Ok(None),
        CheckpointCompletion::Fenced => Err(WriterExit::Fenced { batch: cut }),
        CheckpointCompletion::Poisoned { detail } => Err(
            WriterExit::Poisoned { batch: cut, detail },
        ),
        CheckpointCompletion::Contradiction { detail } => Err(
            WriterExit::Contradiction { batch: cut, detail },
        ),
    }
}

} // verus!
