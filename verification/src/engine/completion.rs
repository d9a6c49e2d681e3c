//! How a checkpoint attempt ends, from the evidence that its steps bring back.

use vstd::prelude::*;

use crate::engine::checkpoint::CheckpointInstall;
use crate::engine::prepare::{CheckpointContradiction, PreparedCheckpoint};
use crate::engine::store::{SealPublication, StoreErrorModel, TableEstablishment, TypedStoreError};

verus! {

/// How one checkpoint attempt ended.
#[derive(Debug, PartialEq, Eq)]
pub enum CheckpointCompletion {
    /// The successor Seal is published under this writer's authority.
    Installed(CheckpointInstall),
    /// Nothing was published; the attempt leaves at most unreferenced tables.
    Abandoned,
    /// Another writer holds the successor's coordinate.
    Fenced,
    /// The publication may have taken effect without local evidence.
    Poisoned { detail: String },
    /// Durable state contradicts the storage model.
    Contradiction { detail: String },
}

/// What an attempt's end says, apart from what is installed.
pub enum CompletionModel {
    Installed,
    Abandoned,
    Fenced,
    Poisoned(Seq<char>),
    Contradiction(Seq<char>),
}

impl CheckpointCompletion {
    pub open spec fn said(self) -> CompletionModel {
        match self {
            CheckpointCompletion::Installed(_) => CompletionModel::Installed,
            CheckpointCompletion::Abandoned => CompletionModel::Abandoned,
            CheckpointCompletion::Fenced => CompletionModel::Fenced,
            CheckpointCompletion::Poisoned { detail } => CompletionModel::Poisoned(detail@),
            CheckpointCompletion::Contradiction { detail } => CompletionModel::Contradiction(
                detail@,
            ),
        }
    }
}

/// What happens while a checkpoint's tables are being established.
#[derive(Debug, PartialEq, Eq)]
pub enum TablesEvent {
    /// Shutdown claimed the publication first.
    Cancelled,
    /// One table's create was decided.
    Settled(TableEstablishment),
    /// Every table's create was decided.
    Drained,
}

/// The tables' common result, once an event decides it: the first table that is not
/// established decides for all, and a cancellation abandons them.
pub fn settle_tables(event: TablesEvent) -> (result: Option<TableEstablishment>)
    ensures
        match event {
            TablesEvent::Cancelled => result == Some(TableEstablishment::Abandoned),
            TablesEvent::Drained => result == Some(TableEstablishment::Established),
            TablesEvent::Settled(TableEstablishment::Established) => result is None,
            TablesEvent::Settled(other) => result == Some(other),
        },
{
    match event {
        TablesEvent::Cancelled => Some(TableEstablishment::Abandoned),
        TablesEvent::Drained => Some(TableEstablishment::Established),
        TablesEvent::Settled(settled) => match settled {
            TableEstablishment::Established => None,
            other => Some(other),
        },
    }
}

/// How the preparation task ended.
#[derive(Debug, PartialEq, Eq)]
pub enum Preparation {
    /// The task itself failed.
    Failed { cause: String },
    /// The task ended without a result.
    Lost,
    /// The task brought its result.
    Finished(Result<Option<PreparedCheckpoint>, CheckpointContradiction>),
}

/// How an attempt ends before it may publish; none when it may.
pub open spec fn unpublished(tables: TableEstablishment, preparation: Preparation) -> Option<
    CompletionModel,
> {
    match (preparation, tables) {
        (Preparation::Failed { cause }, _) => Some(
            CompletionModel::Contradiction("checkpoint preparation task failed: "@ + cause@),
        ),
        (_, TableEstablishment::Abandoned) => Some(CompletionModel::Abandoned),
        (_, TableEstablishment::Contradiction { detail }) => Some(
            CompletionModel::Contradiction(detail@),
        ),
        (Preparation::Lost, TableEstablishment::Established) => Some(
            CompletionModel::Contradiction("checkpoint preparation ended without a result"@),
        ),
        (Preparation::Finished(Ok(None)), TableEstablishment::Established) => Some(
            CompletionModel::Abandoned,
        ),
        (Preparation::Finished(Err(error)), TableEstablishment::Established) => Some(
            CompletionModel::Contradiction(error.detail@),
        ),
        (Preparation::Finished(Ok(Some(_))), TableEstablishment::Established) => None,
    }
}

/// The checkpoint to publish: only one whose preparation finished and all of whose
/// tables are established. Everything else ends the attempt.
pub fn publishable(tables: TableEstablishment, preparation: Preparation) -> (ready: Result<
    PreparedCheckpoint,
    CheckpointCompletion,
>)
    ensures
        match ready {
            Ok(prepared) => unpublished(tables, preparation) is None && preparation
                == Preparation::Finished(Ok(Some(prepared))),
            Err(completion) => unpublished(tables, preparation) == Some(completion.said()),
        },
{
    let finished = match preparation {
        Preparation::Failed { cause } => {
            let mut detail = String::from_str("checkpoint preparation task failed: ");
            detail.append(cause.as_str());
            return Err(CheckpointCompletion::Contradiction { detail });
        },
        Preparation::Lost => None,
        Preparation::Finished(result) => Some(result),
    };
    match tables {
        TableEstablishment::Established => {},
        TableEstablishment::Abandoned => {
            return Err(CheckpointCompletion::Abandoned);
        },
        TableEstablishment::Contradiction { detail } => {
            return Err(CheckpointCompletion::Contradiction { detail });
        },
    }
    match finished {
        Some(Ok(Some(prepared))) => Ok(prepared),
        Some(Ok(None)) => Err(CheckpointCompletion::Abandoned),
        Some(Err(error)) => Err(CheckpointCompletion::Contradiction { detail: error.detail }),
        None => Err(
            CheckpointCompletion::Contradiction {
                detail: String::from_str("checkpoint preparation ended without a result"),
            },
        ),
    }
}

/// How a published attempt ends: only direct authorship installs it.
pub open spec fn published(
    publication: Result<SealPublication, TypedStoreError>,
) -> CompletionModel {
    match publication {
        Ok(SealPublication::Authored) => CompletionModel::Installed,
        Ok(SealPublication::NoAuthority) => CompletionModel::Fenced,
        Ok(SealPublication::Unresolved) => CompletionModel::Poisoned(
            "advancing Seal create is unresolved"@,
        ),
        Err(error) => match error@ {
            StoreErrorModel::Retryable(detail) => CompletionModel::Poisoned(detail),
            StoreErrorModel::Rejected(detail) => CompletionModel::Poisoned(detail),
            StoreErrorModel::Contradiction(detail) => CompletionModel::Contradiction(detail),
        },
    }
}

/// Ends an attempt by what publishing its successor brought.
pub fn complete_publication(
    prepared: PreparedCheckpoint,
    publication: Result<SealPublication, TypedStoreError>,
) -> (completion: CheckpointCompletion)
    ensures
        completion.said() == published(publication),
        completion matches CheckpointCompletion::Installed(install) ==> {
            &&& install.source == prepared.source
            &&& install.successor == prepared.successor
            &&& install.snapshot == prepared.snapshot
        },
{
    match publication {
        Ok(SealPublication::Authored) => CheckpointCompletion::Installed(prepared.into_install()),
        Ok(SealPublication::NoAuthority) => CheckpointCompletion::Fenced,
        Ok(SealPublication::Unresolved) => CheckpointCompletion::Poisoned {
            detail: String::from_str("advancing Seal create is unresolved"),
        },
        Err(error) => match error {
            TypedStoreError::Retryable { detail } => CheckpointCompletion::Poisoned { detail },
            TypedStoreError::Rejected { detail } => CheckpointCompletion::Poisoned { detail },
            TypedStoreError::Contradiction { detail } => CheckpointCompletion::Contradiction {
                detail,
            },
        },
    }
}

/// A checkpoint is published only after all its tables: whatever is publishable had
/// every table established and was prepared completely.
pub proof fn law_children_are_durable_before_the_seal(
    tables: TableEstablishment,
    preparation: Preparation,
)
    requires
        unpublished(tables, preparation) is None,
    ensures
        tables is Established,
        preparation matches Preparation::Finished(Ok(Some(_))),
{
}

} // verus!
