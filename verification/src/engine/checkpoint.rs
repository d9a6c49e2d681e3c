//! What a checkpoint attempt is given and what it hands back.

use vstd::prelude::*;

use crate::domain::coordinate::{BatchId, SealGeneration};
use crate::domain::seal::Seal;
use crate::domain::table::AttemptId;
use crate::engine::forest::Forest;

verus! {

/// The source, cut and attempt that identify one active checkpoint.
#[derive(Debug, Clone, Copy, PartialEq, Eq, Structural)]
pub struct CheckpointTicket {
    pub source: SealGeneration,
    pub cut: BatchId,
    pub attempt: AttemptId,
}

/// Everything that preparing one checkpoint reads.
#[derive(Debug, PartialEq, Eq)]
pub struct CheckpointInput {
    pub source: Seal,
    pub base: Forest,
    pub snapshot: Forest,
    pub cut: BatchId,
    pub attempt: AttemptId,
}

/// A published checkpoint, ready to be installed.
#[derive(Debug, PartialEq, Eq)]
pub struct CheckpointInstall {
    pub source: Seal,
    pub successor: Seal,
    pub snapshot: Forest,
}

} // verus!
