//! Logical Ledger row values.

use vstd::prelude::*;

use crate::domain::coordinate::{BatchId, StreamUid};
use crate::domain::protocol::{ExpiryPolicy, StreamContentType, StreamLifecycle};

verus! {

/// What the Ledger holds of one live stream.
#[derive(Debug, PartialEq, Eq)]
pub struct StreamRecord {
    pub content_type: StreamContentType,
    pub expiry: ExpiryPolicy,
    pub lifecycle: StreamLifecycle,
    pub created_at: BatchId,
}

/// What a stream record says.
pub struct RecordModel {
    pub content_type: Seq<char>,
    pub expiry: ExpiryPolicy,
    pub lifecycle: StreamLifecycle,
    pub created_at: BatchId,
}

impl RecordModel {
    pub open spec fn wf(self) -> bool {
        &&& crate::domain::protocol::content_type_fits(self.content_type)
        &&& self.expiry.wf()
        &&& self.created_at.wf()
    }

    /// The same record, closed.
    pub open spec fn closed(self) -> Self {
        RecordModel { lifecycle: StreamLifecycle::Closed, ..self }
    }
}

impl View for StreamRecord {
    type V = RecordModel;

    open spec fn view(&self) -> RecordModel {
        RecordModel {
            content_type: self.content_type@,
            expiry: self.expiry,
            lifecycle: self.lifecycle,
            created_at: self.created_at,
        }
    }
}

impl Clone for StreamRecord {
    fn clone(&self) -> (copy: Self)
        ensures
            copy@ == self@,
            copy == *self,
    {
        StreamRecord {
            content_type: self.content_type.clone(),
            expiry: self.expiry,
            lifecycle: self.lifecycle,
            created_at: self.created_at,
        }
    }
}

impl StreamRecord {
    pub fn new(
        content_type: StreamContentType,
        expiry: ExpiryPolicy,
        lifecycle: StreamLifecycle,
        created_at: BatchId,
    ) -> (record: Self)
        ensures
            record == (StreamRecord { content_type, expiry, lifecycle, created_at }),
    {
        StreamRecord { content_type, expiry, lifecycle, created_at }
    }

    pub fn content_type(&self) -> (kind: &StreamContentType)
        ensures
            *kind == self.content_type,
    {
        &self.content_type
    }

    pub fn expiry(&self) -> (expiry: ExpiryPolicy)
        ensures
            expiry == self.expiry,
    {
        self.expiry
    }

    pub fn lifecycle(&self) -> (lifecycle: StreamLifecycle)
        ensures
            lifecycle == self.lifecycle,
    {
        self.lifecycle
    }

    pub fn created_at(&self) -> (batch: BatchId)
        ensures
            batch == self.created_at,
    {
        self.created_at
    }

    /// Decides whether two records say the same.
    pub fn is_same(&self, other: &Self) -> (same: bool)
        ensures
            same == (self@ == other@),
    {
        self.content_type.text == other.content_type.text && self.expiry == other.expiry
            && self.lifecycle == other.lifecycle && self.created_at == other.created_at
    }
}

/// One Ledger row: a record, or the mark that an older one is gone.
#[derive(Debug, PartialEq, Eq)]
pub enum LedgerCell {
    Value(StreamRecord),
    Delete,
}

impl View for LedgerCell {
    type V = Option<RecordModel>;

    /// A delete is no record.
    open spec fn view(&self) -> Option<RecordModel> {
        match *self {
            LedgerCell::Value(record) => Some(record@),
            LedgerCell::Delete => None,
        }
    }
}

impl Clone for LedgerCell {
    fn clone(&self) -> (copy: Self)
        ensures
            copy@ == self@,
    {
        match self {
            LedgerCell::Value(record) => LedgerCell::Value(record.clone()),
            LedgerCell::Delete => LedgerCell::Delete,
        }
    }
}

/// The mark that a path's stream was deleted.
#[derive(Debug, Clone, Copy, PartialEq, Eq, Structural)]
pub struct PathTombstone {
    pub uid: StreamUid,
}

/// One self-contained Ledger record: a live stream or a path tombstone.
#[derive(Debug, PartialEq, Eq)]
pub enum LedgerRecord {
    Live { uid: StreamUid, record: StreamRecord },
    Tombstone(PathTombstone),
}

/// What a Ledger record says.
pub enum LedgerRecordModel {
    Live { uid: StreamUid, record: RecordModel },
    Tombstone { uid: StreamUid },
}

impl LedgerRecordModel {
    pub open spec fn wf(self) -> bool {
        match self {
            LedgerRecordModel::Live { uid, record } => uid.wf() && record.wf(),
            LedgerRecordModel::Tombstone { uid } => uid.wf(),
        }
    }
}

impl View for LedgerRecord {
    type V = LedgerRecordModel;

    open spec fn view(&self) -> LedgerRecordModel {
        match *self {
            LedgerRecord::Live { uid, record } => LedgerRecordModel::Live { uid, record: record@ },
            LedgerRecord::Tombstone(tombstone) => LedgerRecordModel::Tombstone {
                uid: tombstone.uid,
            },
        }
    }
}

} // verus!
