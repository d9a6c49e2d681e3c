//! Why a partition did not become ready.

use vstd::prelude::*;

use crate::domain::coordinate::SealGeneration;
use crate::engine::naming::generation_text;
use crate::engine::store::{StoreErrorModel, TypedStoreError};

verus! {

/// Why a partition did not become ready.
#[derive(Debug, PartialEq, Eq)]
pub enum BootstrapExit {
    Retryable { detail: String },
    Fenced { observed: SealGeneration },
    Contradiction { detail: String },
}

/// What an exit says.
pub enum ExitModel {
    Retryable(Seq<char>),
    Fenced(SealGeneration),
    Contradiction(Seq<char>),
}

impl View for BootstrapExit {
    type V = ExitModel;

    open spec fn view(&self) -> ExitModel {
        match *self {
            BootstrapExit::Retryable { detail } => ExitModel::Retryable(detail@),
            BootstrapExit::Fenced { observed } => ExitModel::Fenced(observed),
            BootstrapExit::Contradiction { detail } => ExitModel::Contradiction(detail@),
        }
    }
}

impl ExitModel {
    pub open spec fn message(self) -> Seq<char> {
        match self {
            ExitModel::Retryable(detail) => "bootstrap should be retried: "@ + detail,
            ExitModel::Fenced(observed) => "bootstrap claim was fenced by Seal generation "@
                + crate::engine::naming::generation_chars(observed),
            ExitModel::Contradiction(detail) => "bootstrap found a durable contradiction: "@
                + detail,
        }
    }
}

impl BootstrapExit {
    /// The message shown for this exit.
    pub fn to_string(&self) -> (message: String)
        ensures
            message@ == self@.message(),
    {
        match self {
            BootstrapExit::Retryable { detail } => {
                let mut message = String::from_str("bootstrap should be retried: ");
                message.append(detail.as_str());
                message
            },
            BootstrapExit::Fenced { observed } => {
                let mut message = String::from_str(
                    "bootstrap claim was fenced by Seal generation ",
                );
                message.append(generation_text(*observed).as_str());
                message
            },
            BootstrapExit::Contradiction { detail } => {
                let mut message = String::from_str("bootstrap found a durable contradiction: ");
                message.append(detail.as_str());
                message
            },
        }
    }
}

impl StoreErrorModel {
    /// What a failed store operation ends a bootstrap with.
    pub open spec fn exit(self) -> ExitModel {
        match self {
            StoreErrorModel::Retryable(detail) => ExitModel::Retryable(detail),
            StoreErrorModel::Rejected(detail) => ExitModel::Contradiction(detail),
            StoreErrorModel::Contradiction(detail) => ExitModel::Contradiction(detail),
        }
    }
}

/// Ends a bootstrap with a failed store operation.
pub fn map_typed_store_error(error: TypedStoreError) -> (exit: BootstrapExit)
    ensures
        exit@ == error@.exit(),
{
    match error {
        TypedStoreError::Retryable { detail } => BootstrapExit::Retryable { detail },
        TypedStoreError::Rejected { detail } | TypedStoreError::Contradiction { detail } =>
            BootstrapExit::Contradiction { detail },
    }
}

/// A retryable exit with a fixed reason.
pub fn retryable(reason: &str) -> (exit: BootstrapExit)
    ensures
        exit@ == ExitModel::Retryable(reason@),
{
    BootstrapExit::Retryable { detail: String::from_str(reason) }
}

/// A contradiction with a fixed reason.
pub fn contradiction(reason: &str) -> (exit: BootstrapExit)
    ensures
        exit@ == ExitModel::Contradiction(reason@),
{
    BootstrapExit::Contradiction { detail: String::from_str(reason) }
}

} // verus!
