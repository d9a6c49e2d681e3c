//! Pure stream-command admission and WAL suffix accounting.

use vstd::prelude::*;
use vstd::string::*;

use crate::domain::bounds::WAL_SUFFIX_COORDINATES_MAX_V2;
use crate::domain::coordinate::{BatchId, StreamUid};
use crate::domain::directory::{DirectoryEntry, DirectoryKey};
use crate::domain::protocol::{ExpiryPolicy, StreamContentType, StreamLifecycle};
use crate::domain::wal::{FactModel, OperationFact};
use crate::engine::forest::{FoldContradiction, Forest, ForestModel};

verus! {

/// The stream that a create command asks for.
#[derive(Debug, PartialEq, Eq)]
pub struct CreateStream {
    pub path: DirectoryKey,
    pub content_type: StreamContentType,
    pub expiry: ExpiryPolicy,
    pub lifecycle: StreamLifecycle,
}

/// What a create command asks for.
pub struct CreateModel {
    pub path: Seq<u8>,
    pub content_type: Seq<char>,
    pub expiry: ExpiryPolicy,
    pub lifecycle: StreamLifecycle,
}

impl View for CreateStream {
    type V = CreateModel;

    open spec fn view(&self) -> CreateModel {
        CreateModel {
            path: self.path@,
            content_type: self.content_type@,
            expiry: self.expiry,
            lifecycle: self.lifecycle,
        }
    }
}

impl CreateStream {
    /// Whether the command is inside the protocol's bounds.
    pub fn is_valid(&self) -> (valid: bool)
        ensures
            valid == self@.wf(),
    {
        self.path.is_fitting() && self.content_type.is_fitting() && match self.expiry {
            ExpiryPolicy::SlidingTtl(ttl) => ttl.seconds != 0,
            _ => true,
        }
    }
}

impl CreateModel {
    /// The texts are no longer than the protocol lets them be, and a time to live
    /// is not zero.
    pub open spec fn wf(self) -> bool {
        &&& crate::domain::protocol::path_fits(self.path)
        &&& crate::domain::protocol::content_type_fits(self.content_type)
        &&& self.expiry.wf()
    }

    /// The fact that creates this stream.
    pub open spec fn fact(self, uid: StreamUid) -> FactModel {
        FactModel::StreamCreated {
            path: self.path,
            uid,
            content_type: self.content_type,
            expiry: self.expiry,
            lifecycle: self.lifecycle,
        }
    }
}

/// A command that did not enter admitted state or consume a WAL coordinate.
#[derive(Debug, Clone, Copy, PartialEq, Eq, Structural)]
pub enum AdmissionRefusal {
    PathOccupied,
    PathCapacityExhausted,
    PathNotLive,
    Overloaded,
}

impl AdmissionRefusal {
    pub open spec fn spec_message(self) -> Seq<char> {
        match self {
            AdmissionRefusal::PathOccupied => "stream path is already occupied"@,
            AdmissionRefusal::PathCapacityExhausted => "partition path capacity is exhausted"@,
            AdmissionRefusal::PathNotLive => "stream path is not live"@,
            AdmissionRefusal::Overloaded => "partition writer is at a bounded capacity limit"@,
        }
    }

    /// The message shown for this refusal.
    pub fn to_string(&self) -> (message: String)
        ensures
            message@ == self.spec_message(),
    {
        let text = match *self {
            AdmissionRefusal::PathOccupied => "stream path is already occupied",
            AdmissionRefusal::PathCapacityExhausted => "partition path capacity is exhausted",
            AdmissionRefusal::PathNotLive => "stream path is not live",
            AdmissionRefusal::Overloaded => "partition writer is at a bounded capacity limit",
        };
        String::from_str(text)
    }
}

/// An admitted fact and the forest after it.
#[derive(Debug, PartialEq, Eq)]
pub struct AdmittedCommand {
    pub forest: Forest,
    pub fact: OperationFact,
}

impl AdmittedCommand {
    /// The forest is what folding the fact into `before` gives.
    pub open spec fn extends(self, before: ForestModel, batch: BatchId) -> bool {
        &&& before.fold(batch, self.fact@) == Ok::<ForestModel, FoldContradiction>(self.forest@)
        &&& self.forest.wf()
        &&& self.fact@.wf()
    }
}

/// An admitted create: a new fact, or the stream exists as asked for.
#[derive(Debug, PartialEq, Eq)]
pub enum CreateAdmission {
    Fact(AdmittedCommand),
    AlreadyExists,
}

/// An admitted close: a new fact, or the stream is closed.
#[derive(Debug, PartialEq, Eq)]
pub enum CloseAdmission {
    Fact(AdmittedCommand),
    AlreadyClosed,
}

/// What a create command comes to: a fact, nothing because the stream exists with
/// the same configuration, or a refusal.
pub open spec fn spec_admit_create(admitted: ForestModel, command: CreateModel) -> Result<
    Option<FactModel>,
    AdmissionRefusal,
> {
    if admitted.directory.dom().contains(command.path) {
        match admitted.directory[command.path] {
            DirectoryEntry::Tombstone(_) => Err(AdmissionRefusal::PathOccupied),
            DirectoryEntry::Live(uid) => {
                let record = admitted.ledger[uid.value];
                if record.content_type == command.content_type && record.expiry == command.expiry
                    && record.lifecycle == command.lifecycle {
                    Ok(None)
                } else {
                    Err(AdmissionRefusal::PathOccupied)
                }
            },
        }
    } else {
        match crate::engine::forest::spec_successor_uid(admitted.path_count()) {
            Ok(uid) => Ok(Some(command.fact(uid))),
            Err(_) => Err(AdmissionRefusal::PathCapacityExhausted),
        }
    }
}

/// What a close command comes to: a fact, nothing because the stream is closed, or
/// a refusal.
pub open spec fn spec_admit_close(admitted: ForestModel, path: Seq<u8>) -> Result<
    Option<FactModel>,
    AdmissionRefusal,
> {
    match admitted.live(path) {
        None => Err(AdmissionRefusal::PathNotLive),
        Some(uid) => if admitted.ledger[uid.value].lifecycle == StreamLifecycle::Closed {
            Ok(None)
        } else {
            Ok(Some(FactModel::StreamClosed { path, uid }))
        },
    }
}

/// What a delete command comes to: a fact or a refusal.
pub open spec fn spec_admit_delete(admitted: ForestModel, path: Seq<u8>) -> Result<
    FactModel,
    AdmissionRefusal,
> {
    match admitted.live(path) {
        None => Err(AdmissionRefusal::PathNotLive),
        Some(uid) => Ok(FactModel::StreamDeleted { path, uid }),
    }
}

/// Decides a create command against the admitted forest.
pub fn admit_create(admitted: &Forest, command: &CreateStream, batch: BatchId) -> (admission: Result<
    CreateAdmission,
    AdmissionRefusal,
>)
    requires
        admitted.wf(),
        command@.wf(),
        batch.wf(),
    ensures
        match admission {
            Ok(CreateAdmission::Fact(accepted)) => {
                &&& spec_admit_create(admitted@, command@) == Ok::<_, AdmissionRefusal>(
                    Some(accepted.fact@),
                )
                &&& accepted.extends(admitted@, batch)
            },
            Ok(CreateAdmission::AlreadyExists) => spec_admit_create(admitted@, command@) == Ok::<
                Option<FactModel>,
                AdmissionRefusal,
            >(None),
            Err(refusal) => spec_admit_create(admitted@, command@) == Err::<
                Option<FactModel>,
                AdmissionRefusal,
            >(refusal),
        },
{
    match admitted.resolve(&command.path) {
        Some(DirectoryEntry::Tombstone(_)) => Err(AdmissionRefusal::PathOccupied),
        Some(DirectoryEntry::Live(uid)) => {
            assert(admitted@.live(command.path@) == Some(uid));
            match admitted.record(uid) {
                Some(record) => if record.content_type.text == command.content_type.text
                    && record.expiry == command.expiry && record.lifecycle == command.lifecycle {
                    Ok(CreateAdmission::AlreadyExists)
                } else {
                    Err(AdmissionRefusal::PathOccupied)
                },
                None => {
                    assert(false);
                    Err(AdmissionRefusal::PathOccupied)
                },
            }
        },
        None => {
            let uid = match admitted.successor_uid() {
                Ok(uid) => uid,
                Err(contradiction) => match contradiction.admission_refusal() {
                    Some(refusal) => {
                        return Err(refusal);
                    },
                    None => {
                        assert(false);
                        return Err(AdmissionRefusal::PathCapacityExhausted);
                    },
                },
            };
            let fact = OperationFact::StreamCreated {
                path: command.path.clone(),
                uid,
                content_type: command.content_type.clone(),
                expiry: command.expiry,
                lifecycle: command.lifecycle,
            };
            Ok(CreateAdmission::Fact(apply_fact(admitted, batch, fact)))
        },
    }
}

/// Decides a close command against the admitted forest.
pub fn admit_close(admitted: &Forest, path: &DirectoryKey, batch: BatchId) -> (admission: Result<
    CloseAdmission,
    AdmissionRefusal,
>)
    requires
        admitted.wf(),
        batch.wf(),
    ensures
        match admission {
            Ok(CloseAdmission::Fact(accepted)) => {
                &&& spec_admit_close(admitted@, path@) == Ok::<_, AdmissionRefusal>(
                    Some(accepted.fact@),
                )
                &&& accepted.extends(admitted@, batch)
            },
            Ok(CloseAdmission::AlreadyClosed) => spec_admit_close(admitted@, path@) == Ok::<
                Option<FactModel>,
                AdmissionRefusal,
            >(None),
            Err(refusal) => spec_admit_close(admitted@, path@) == Err::<
                Option<FactModel>,
                AdmissionRefusal,
            >(refusal),
        },
{
    let uid = match resolve_live_uid(admitted, path) {
        Ok(uid) => uid,
        Err(refusal) => {
            return Err(refusal);
        },
    };
    match admitted.record(uid) {
        Some(record) => if record.lifecycle == StreamLifecycle::Closed {
            return Ok(CloseAdmission::AlreadyClosed);
        },
        None => {
            assert(false);
        },
    }
    let fact = OperationFact::StreamClosed { path: path.clone(), uid };
    Ok(CloseAdmission::Fact(apply_fact(admitted, batch, fact)))
}

/// Decides a delete command against the admitted forest.
pub fn admit_delete(admitted: &Forest, path: &DirectoryKey, batch: BatchId) -> (admission: Result<
    AdmittedCommand,
    AdmissionRefusal,
>)
    requires
        admitted.wf(),
        batch.wf(),
    ensures
        match admission {
            Ok(accepted) => {
                &&& spec_admit_delete(admitted@, path@) == Ok::<_, AdmissionRefusal>(accepted.fact@)
                &&& accepted.extends(admitted@, batch)
            },
            Err(refusal) => spec_admit_delete(admitted@, path@) == Err::<
                FactModel,
                AdmissionRefusal,
            >(refusal),
        },
{
    let uid = match resolve_live_uid(admitted, path) {
        Ok(uid) => uid,
        Err(refusal) => {
            return Err(refusal);
        },
    };
    let fact = OperationFact::StreamDeleted { path: path.clone(), uid };
    Ok(apply_fact(admitted, batch, fact))
}

/// Every fact that admission constructs joins the forest it was decided against:
/// it never meets a contradiction.
pub proof fn law_admitted_facts_fold(
    admitted: ForestModel,
    command: CreateModel,
    path: Seq<u8>,
    batch: BatchId,
)
    requires
        admitted.wf(),
    ensures
        spec_admit_create(admitted, command) matches Ok(Some(fact)) ==> admitted.fold(
            batch,
            fact,
        ) is Ok,
        spec_admit_close(admitted, path) matches Ok(Some(fact)) ==> admitted.fold(batch, fact) is Ok,
        spec_admit_delete(admitted, path) matches Ok(fact) ==> admitted.fold(batch, fact) is Ok,
{
}

/// A create that was admitted, asked for again, is answered as existing.
pub proof fn law_create_is_idempotent(
    admitted: ForestModel,
    command: CreateModel,
    batch: BatchId,
)
    requires
        admitted.wf(),
    ensures
        spec_admit_create(admitted, command) matches Ok(Some(fact)) ==> {
            let after = admitted.fold(batch, fact)->Ok_0;
            spec_admit_create(after, command) == Ok::<Option<FactModel>, AdmissionRefusal>(None)
        },
{
}

/// A close that was admitted, asked for again, is answered as closed.
pub proof fn law_close_is_idempotent(admitted: ForestModel, path: Seq<u8>, batch: BatchId)
    requires
        admitted.wf(),
    ensures
        spec_admit_close(admitted, path) matches Ok(Some(fact)) ==> {
            let after = admitted.fold(batch, fact)->Ok_0;
            spec_admit_close(after, path) == Ok::<Option<FactModel>, AdmissionRefusal>(None)
        },
{
    if let Ok(Some(fact)) = spec_admit_close(admitted, path) {
        let after = admitted.fold(batch, fact)->Ok_0;
        assert(after.live(path) == admitted.live(path));
    }
}

/// A deleted path stays occupied: it can be neither created nor deleted again.
pub proof fn law_delete_keeps_the_path_occupied(
    admitted: ForestModel,
    command: CreateModel,
    batch: BatchId,
)
    requires
        admitted.wf(),
    ensures
        spec_admit_delete(admitted, command.path) matches Ok(fact) ==> {
            let after = admitted.fold(batch, fact)->Ok_0;
            &&& spec_admit_create(after, command) == Err::<Option<FactModel>, AdmissionRefusal>(
                AdmissionRefusal::PathOccupied,
            )
            &&& spec_admit_delete(after, command.path) == Err::<FactModel, AdmissionRefusal>(
                AdmissionRefusal::PathNotLive,
            )
        },
{
}

/// One proposed RUN and the reserved next claimant FENCE stay inside the post-Seal
/// suffix bound.
pub open spec fn suffix_room(cut: u64, proposed: BatchId) -> bool {
    &&& proposed.value < u64::MAX
    &&& 1 < proposed.value + 1 - cut <= WAL_SUFFIX_COORDINATES_MAX_V2
}

/// The coordinate of a cut; no cut is coordinate zero.
pub open spec fn cut_value(cut: Option<BatchId>) -> u64 {
    match cut {
        Some(batch) => batch.value,
        None => 0,
    }
}

/// Whether one proposed RUN and the reserved next claimant FENCE stay inside the
/// post-Seal suffix bound.
pub fn decide_suffix_room(cut: Option<BatchId>, proposed: BatchId) -> (room: bool)
    ensures
        room == suffix_room(cut_value(cut), proposed),
{
    let cut: u64 = match cut {
        Some(batch) => batch.value,
        None => 0,
    };
    match proposed.successor() {
        Ok(reserved_fence) => match reserved_fence.value.checked_sub(cut) {
            Some(span) => span > 1 && span <= WAL_SUFFIX_COORDINATES_MAX_V2,
            None => false,
        },
        Err(_exhausted) => false,
    }
}

impl FoldContradiction {
    pub open spec fn spec_admission_refusal(self) -> Option<AdmissionRefusal> {
        match self {
            FoldContradiction::PathOccupied => Some(AdmissionRefusal::PathOccupied),
            FoldContradiction::PathCapacityExhausted => Some(
                AdmissionRefusal::PathCapacityExhausted,
            ),
            FoldContradiction::PathNotLive => Some(AdmissionRefusal::PathNotLive),
            _ => None,
        }
    }

    /// The refusal that a caller sees of a contradiction; none of one that
    /// admission cannot cause.
    pub fn admission_refusal(self) -> (refusal: Option<AdmissionRefusal>)
        ensures
            refusal == self.spec_admission_refusal(),
    {
        match self {
            FoldContradiction::PathOccupied => Some(AdmissionRefusal::PathOccupied),
            FoldContradiction::PathCapacityExhausted => Some(
                AdmissionRefusal::PathCapacityExhausted,
            ),
            FoldContradiction::PathNotLive => Some(AdmissionRefusal::PathNotLive),
            FoldContradiction::StreamAlreadyClosed => None,
            FoldContradiction::UidNotDenseSuccessor => None,
            FoldContradiction::PathUidMismatch => None,
        }
    }
}

fn resolve_live_uid(forest: &Forest, path: &DirectoryKey) -> (uid: Result<
    StreamUid,
    AdmissionRefusal,
>)
    requires
        forest.wf(),
    ensures
        uid == (match forest@.live(path@) {
            Some(uid) => Ok(uid),
            None => Err(AdmissionRefusal::PathNotLive),
        }),
        uid matches Ok(uid) ==> uid.wf() && crate::domain::protocol::path_fits(path@),
{
    match forest.resolve(path) {
        Some(DirectoryEntry::Live(uid)) => Ok(uid),
        _ => Err(AdmissionRefusal::PathNotLive),
    }
}

/// Folds a fact into a copy of the admitted forest.
fn apply_fact(admitted: &Forest, batch: BatchId, fact: OperationFact) -> (accepted: AdmittedCommand)
    requires
        admitted.wf(),
        batch.wf(),
        fact@.wf(),
        admitted@.fold(batch, fact@) is Ok,
    ensures
        accepted.fact == fact,
        accepted.extends(admitted@, batch),
{
    let mut candidate = admitted.clone();
    let applied = candidate.strict_fold(batch, &fact);
    assert(applied is Ok);
    AdmittedCommand { forest: candidate, fact }
}

} // verus!
