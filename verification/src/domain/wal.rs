//! Write-ahead log vocabulary.

use vstd::prelude::*;
use vstd::string::*;

use crate::domain::bounds::{
    WAL_FACT_ENCODED_FIXED_BYTES_MAX, WAL_RUN_FACTS_MAX, WAL_RUN_FIXED_ENCODED_BYTES_MAX,
};
use crate::domain::coordinate::{BatchId, OwnerToken, StreamUid};
use crate::domain::directory::DirectoryKey;
use crate::domain::partition::PartitionId;
use crate::domain::protocol::{ExpiryPolicy, StreamContentType, StreamLifecycle};
use crate::domain::text::number_text;

verus! {

/// An already-decided stream mutation.
#[derive(Debug, PartialEq, Eq)]
pub enum OperationFact {
    StreamCreated {
        path: DirectoryKey,
        uid: StreamUid,
        content_type: StreamContentType,
        expiry: ExpiryPolicy,
        lifecycle: StreamLifecycle,
    },
    StreamClosed { path: DirectoryKey, uid: StreamUid },
    StreamDeleted { path: DirectoryKey, uid: StreamUid },
}

/// What an operation fact says.
pub enum FactModel {
    StreamCreated {
        path: Seq<u8>,
        uid: StreamUid,
        content_type: Seq<char>,
        expiry: ExpiryPolicy,
        lifecycle: StreamLifecycle,
    },
    StreamClosed { path: Seq<u8>, uid: StreamUid },
    StreamDeleted { path: Seq<u8>, uid: StreamUid },
}

impl FactModel {
    pub open spec fn spec_path(self) -> Seq<u8> {
        match self {
            FactModel::StreamCreated { path, .. } => path,
            FactModel::StreamClosed { path, .. } => path,
            FactModel::StreamDeleted { path, .. } => path,
        }
    }

    pub open spec fn spec_uid(self) -> StreamUid {
        match self {
            FactModel::StreamCreated { uid, .. } => uid,
            FactModel::StreamClosed { uid, .. } => uid,
            FactModel::StreamDeleted { uid, .. } => uid,
        }
    }

    /// The stream is not the reserved zero and the texts are inside the protocol's
    /// bounds.
    pub open spec fn wf(self) -> bool {
        &&& self.spec_uid().wf()
        &&& crate::domain::protocol::path_fits(self.spec_path())
        &&& self matches FactModel::StreamCreated { content_type, expiry, .. } ==> {
            &&& crate::domain::protocol::content_type_fits(content_type)
            &&& expiry.wf()
        }
    }

    /// Bytes of the fact's variable texts.
    pub open spec fn text_bytes(self) -> nat {
        match self {
            FactModel::StreamCreated { path, content_type, .. } => path.len()
                + vstd::utf8::encode_utf8(content_type).len(),
            FactModel::StreamClosed { path, .. } => path.len(),
            FactModel::StreamDeleted { path, .. } => path.len(),
        }
    }

    /// Fixed framing plus variable texts, as far as it fits a machine word.
    pub open spec fn estimated(self) -> usize {
        let whole = WAL_FACT_ENCODED_FIXED_BYTES_MAX + self.text_bytes();
        if whole > usize::MAX {
            usize::MAX
        } else {
            whole as usize
        }
    }
}

impl View for OperationFact {
    type V = FactModel;

    open spec fn view(&self) -> FactModel {
        match *self {
            OperationFact::StreamCreated { path, uid, content_type, expiry, lifecycle } =>
                FactModel::StreamCreated {
                    path: path@,
                    uid,
                    content_type: content_type@,
                    expiry,
                    lifecycle,
                },
            OperationFact::StreamClosed { path, uid } => FactModel::StreamClosed { path: path@, uid },
            OperationFact::StreamDeleted { path, uid } => FactModel::StreamDeleted {
                path: path@,
                uid,
            },
        }
    }
}

impl Clone for OperationFact {
    fn clone(&self) -> (copy: Self)
        ensures
            copy@ == self@,
    {
        match self {
            OperationFact::StreamCreated { path, uid, content_type, expiry, lifecycle } =>
                OperationFact::StreamCreated {
                    path: path.clone(),
                    uid: *uid,
                    content_type: content_type.clone(),
                    expiry: *expiry,
                    lifecycle: *lifecycle,
                },
            OperationFact::StreamClosed { path, uid } => OperationFact::StreamClosed {
                path: path.clone(),
                uid: *uid,
            },
            OperationFact::StreamDeleted { path, uid } => OperationFact::StreamDeleted {
                path: path.clone(),
                uid: *uid,
            },
        }
    }
}

impl OperationFact {
    /// Sound upper estimate of this fact's contribution to a WAL archive.
    pub fn estimated_encoded_bytes(&self) -> (bytes: usize)
        ensures
            bytes == self@.estimated(),
    {
        let variable_bytes: usize = match self {
            OperationFact::StreamCreated { path, uid: _, content_type, expiry: _, lifecycle: _ } =>
                path.bytes.len().saturating_add(content_type.text.as_str().as_bytes().len()),
            OperationFact::StreamClosed { path, uid: _ } => path.bytes.len(),
            OperationFact::StreamDeleted { path, uid: _ } => path.bytes.len(),
        };
        WAL_FACT_ENCODED_FIXED_BYTES_MAX.saturating_add(variable_bytes)
    }

    pub fn path(&self) -> (path: &DirectoryKey)
        ensures
            path@ == self@.spec_path(),
    {
        match self {
            OperationFact::StreamCreated { path, .. } => path,
            OperationFact::StreamClosed { path, .. } => path,
            OperationFact::StreamDeleted { path, .. } => path,
        }
    }
}

/// Fixed framing plus variable texts of facts.
pub open spec fn facts_estimate(facts: Seq<FactModel>) -> nat
    decreases facts.len(),
{
    if facts.len() == 0 {
        0
    } else {
        facts_estimate(facts.drop_last()) + WAL_FACT_ENCODED_FIXED_BYTES_MAX as nat
            + facts.last().text_bytes()
    }
}

/// What facts say, in order.
pub open spec fn facts_model(facts: Seq<OperationFact>) -> Seq<FactModel> {
    facts.map(|_i: int, fact: OperationFact| fact@)
}

/// One log object: a run of facts or the fence of a takeover.
#[derive(Debug, PartialEq, Eq)]
pub enum WalObject {
    Run(WalRun),
    Fence(WalFence),
}

/// The content of a log object, apart from where it stands.
#[derive(Debug, PartialEq, Eq)]
pub enum WalBody {
    Run(WalFacts),
    Fence,
}

impl WalBody {
    /// The facts of a run; a fence has none.
    pub open spec fn model(self) -> Option<Seq<FactModel>> {
        match self {
            WalBody::Run(facts) => Some(facts_model(facts@)),
            WalBody::Fence => None,
        }
    }

    pub open spec fn wf(self) -> bool {
        self matches WalBody::Run(facts) ==> facts.wf()
    }
}

/// What a log object says; a fence has no facts.
pub struct WalModel {
    pub partition: PartitionId,
    pub batch: BatchId,
    pub owner: OwnerToken,
    pub facts: Option<Seq<FactModel>>,
}

impl WalModel {
    /// Worst-case framing of one log object plus what its facts are estimated at.
    pub open spec fn estimated(self) -> nat {
        WAL_RUN_FIXED_ENCODED_BYTES_MAX as nat + match self.facts {
            Some(facts) => facts_estimate(facts),
            None => 0,
        }
    }

    pub open spec fn identity(self) -> WalIdentity {
        WalIdentity { partition: self.partition, batch: self.batch }
    }

    pub open spec fn wf(self) -> bool {
        &&& self.partition.wf()
        &&& self.batch.wf()
        &&& self.owner.wf()
        &&& self.facts matches Some(facts) ==> {
            &&& 0 < facts.len() <= WAL_RUN_FACTS_MAX
            &&& forall|i: int| 0 <= i < facts.len() ==> (#[trigger] facts[i]).wf()
        }
    }
}

impl View for WalObject {
    type V = WalModel;

    open spec fn view(&self) -> WalModel {
        match *self {
            WalObject::Run(run) => WalModel {
                partition: run.partition,
                batch: run.batch,
                owner: run.owner,
                facts: Some(facts_model(run.facts@)),
            },
            WalObject::Fence(fence) => WalModel {
                partition: fence.partition,
                batch: fence.batch,
                owner: fence.owner,
                facts: None,
            },
        }
    }
}

impl WalObject {
    pub fn new(partition: PartitionId, batch: BatchId, owner: OwnerToken, body: WalBody) -> (object:
        Self)
        ensures
            object@ == (WalModel { partition, batch, owner, facts: body.model() }),
    {
        match body {
            WalBody::Run(facts) => WalObject::Run(WalRun { partition, batch, owner, facts }),
            WalBody::Fence => WalObject::Fence(WalFence { partition, batch, owner }),
        }
    }

    pub fn identity(&self) -> (identity: WalIdentity)
        ensures
            identity == self@.identity(),
    {
        match self {
            WalObject::Run(run) => run.identity(),
            WalObject::Fence(fence) => fence.identity(),
        }
    }

    pub fn owner(&self) -> (owner: OwnerToken)
        ensures
            owner == self@.owner,
    {
        match self {
            WalObject::Run(run) => run.owner,
            WalObject::Fence(fence) => fence.owner,
        }
    }

    /// The facts of a run; a fence has none.
    pub fn facts(&self) -> (facts: Option<&[OperationFact]>)
        ensures
            match facts {
                Some(facts) => self@.facts == Some(facts_model(facts@)),
                None => self@.facts is None,
            },
    {
        match self {
            WalObject::Run(run) => Some(run.facts()),
            WalObject::Fence(_fence) => None,
        }
    }
}

/// A run of facts at one coordinate.
#[derive(Debug, PartialEq, Eq)]
pub struct WalRun {
    pub partition: PartitionId,
    pub batch: BatchId,
    pub owner: OwnerToken,
    pub facts: BoundedNonEmptyVec<OperationFact>,
}

impl WalRun {
    pub fn new(
        partition: PartitionId,
        batch: BatchId,
        owner: OwnerToken,
        facts: BoundedNonEmptyVec<OperationFact>,
    ) -> (run: Self)
        ensures
            run == (WalRun { partition, batch, owner, facts }),
    {
        WalRun { partition, batch, owner, facts }
    }

    pub fn identity(&self) -> (identity: WalIdentity)
        ensures
            identity == (WalIdentity { partition: self.partition, batch: self.batch }),
    {
        WalIdentity { partition: self.partition, batch: self.batch }
    }

    pub fn owner(&self) -> (owner: OwnerToken)
        ensures
            owner == self.owner,
    {
        self.owner
    }

    pub fn facts(&self) -> (facts: &[OperationFact])
        ensures
            facts@ == self.facts@,
    {
        self.facts.as_slice()
    }
}

/// The mark by which a new owner takes over the log.
#[derive(Debug, Clone, Copy, PartialEq, Eq)]
pub struct WalFence {
    pub partition: PartitionId,
    pub batch: BatchId,
    pub owner: OwnerToken,
}

impl WalFence {
    pub fn new(partition: PartitionId, batch: BatchId, owner: OwnerToken) -> (fence: Self)
        ensures
            fence == (WalFence { partition, batch, owner }),
    {
        WalFence { partition, batch, owner }
    }

    pub fn identity(self) -> (identity: WalIdentity)
        ensures
            identity == (WalIdentity { partition: self.partition, batch: self.batch }),
    {
        WalIdentity { partition: self.partition, batch: self.batch }
    }

    pub fn owner(self) -> (owner: OwnerToken)
        ensures
            owner == self.owner,
    {
        self.owner
    }
}

/// Where one log object stands.
#[derive(Debug, Clone, Copy, PartialEq, Eq, PartialOrd, Ord, Hash)]
pub struct WalIdentity {
    pub partition: PartitionId,
    pub batch: BatchId,
}

impl WalIdentity {
    pub open spec fn wf(self) -> bool {
        self.partition.wf() && self.batch.wf()
    }

    pub fn new(partition: PartitionId, batch: BatchId) -> (identity: Self)
        ensures
            identity == (WalIdentity { partition, batch }),
    {
        WalIdentity { partition, batch }
    }

    pub fn partition(self) -> (partition: PartitionId)
        ensures
            partition == self.partition,
    {
        self.partition
    }

    pub fn batch(self) -> (batch: BatchId)
        ensures
            batch == self.batch,
    {
        self.batch
    }

    /// Decides whether two identities are the same.
    pub fn is_same(&self, other: &Self) -> (same: bool)
        ensures
            same == (*self == *other),
    {
        self.batch == other.batch && self.partition.is_same(&other.partition)
    }
}

/// At least one value and at most as many as one WAL run may carry.
#[derive(Debug, PartialEq, Eq)]
pub struct BoundedNonEmptyVec<Value> {
    pub values: Vec<Value>,
}

/// The facts of one run.
pub type WalFacts = BoundedNonEmptyVec<OperationFact>;

/// Why facts form no run.
pub type WalFactsError = BoundedNonEmptyVecError;

impl<Value> View for BoundedNonEmptyVec<Value> {
    type V = Seq<Value>;

    open spec fn view(&self) -> Seq<Value> {
        self.values@
    }
}

impl<Value> BoundedNonEmptyVec<Value> {
    pub open spec fn wf(self) -> bool {
        0 < self@.len() <= WAL_RUN_FACTS_MAX
    }

    pub fn as_slice(&self) -> (values: &[Value])
        ensures
            values@ == self@,
    {
        self.values.as_slice()
    }

    pub fn into_vec(self) -> (values: Vec<Value>)
        ensures
            values == self.values,
    {
        self.values
    }
}

impl<Value> TryFrom<Vec<Value>> for BoundedNonEmptyVec<Value> {
    type Error = BoundedNonEmptyVecError;

    fn try_from(values: Vec<Value>) -> (bounded: Result<Self, BoundedNonEmptyVecError>) {
        if values.len() == 0 {
            return Err(BoundedNonEmptyVecError::Empty);
        }
        if values.len() > WAL_RUN_FACTS_MAX {
            return Err(BoundedNonEmptyVecError::OverMax { facts_actual: values.len() });
        }
        Ok(BoundedNonEmptyVec { values })
    }
}

impl<Value> vstd::std_specs::convert::TryFromSpecImpl<Vec<Value>> for BoundedNonEmptyVec<Value> {
    open spec fn obeys_try_from_spec() -> bool {
        true
    }

    open spec fn try_from_spec(values: Vec<Value>) -> Result<Self, BoundedNonEmptyVecError> {
        if values@.len() == 0 {
            Err(BoundedNonEmptyVecError::Empty)
        } else if values@.len() > WAL_RUN_FACTS_MAX {
            Err(BoundedNonEmptyVecError::OverMax { facts_actual: values@.len() as usize })
        } else {
            Ok(BoundedNonEmptyVec { values })
        }
    }
}

/// Why values are not one run's worth.
#[derive(Debug, Clone, Copy, PartialEq, Eq, Structural)]
pub enum BoundedNonEmptyVecError {
    Empty,
    OverMax { facts_actual: usize },
}

impl BoundedNonEmptyVecError {
    pub open spec fn spec_message(self) -> Seq<char> {
        match self {
            BoundedNonEmptyVecError::Empty => "WAL run has no operation facts"@,
            BoundedNonEmptyVecError::OverMax { facts_actual } => "WAL run has "@
                + crate::domain::text::number_chars(facts_actual as nat)
                + " facts; the bound is 4096"@,
        }
    }

    /// The message shown for this failure.
    pub fn to_string(&self) -> (message: String)
        ensures
            message@ == self.spec_message(),
    {
        match *self {
            BoundedNonEmptyVecError::Empty => String::from_str("WAL run has no operation facts"),
            BoundedNonEmptyVecError::OverMax { facts_actual } => {
                let mut message = String::from_str("WAL run has ");
                message.append(number_text(facts_actual as u64).as_str());
                message.append(" facts; the bound is 4096");
                message
            },
        }
    }
}

} // verus!
