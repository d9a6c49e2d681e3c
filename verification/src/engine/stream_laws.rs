//! What commands do to streams, said of the rows and records themselves.

use vstd::prelude::*;

use crate::domain::coordinate::{BatchId, OwnerToken, StreamUid};
use crate::domain::directory::{DirectoryEntry, DirectoryKey};
use crate::domain::protocol::{ExpiryPolicy, StreamLifecycle};
use crate::domain::wal::{FactModel, OperationFact, WalModel};
use crate::engine::admission::{
    admit_close, admit_create, admit_delete, AdmissionRefusal, AdmittedCommand, CloseAdmission,
    CreateAdmission, CreateStream,
};
use crate::engine::forest::{FoldContradiction, Forest, ForestModel};
use crate::engine::service::{PublishedView, StatusModel, StreamStatus};

verus! {

/// Two forests have the same rows and records but for one path and one stream.
pub open spec fn differ_only_at(
    before: ForestModel,
    after: ForestModel,
    path: Seq<u8>,
    uid: u64,
) -> bool {
    &&& forall|other: Seq<u8>|
        other != path ==> (#[trigger] after.directory.dom().contains(other)
            == before.directory.dom().contains(other))
    &&& forall|other: Seq<u8>|
        other != path && before.directory.dom().contains(other) ==> #[trigger] after.directory[other]
            == before.directory[other]
    &&& forall|other: u64|
        other != uid ==> (#[trigger] after.ledger.dom().contains(other)
            == before.ledger.dom().contains(other))
    &&& forall|other: u64|
        other != uid && before.ledger.dom().contains(other) ==> #[trigger] after.ledger[other]
            == before.ledger[other]
}

// Folds

/// A creation is accepted exactly at a path that was never occupied, by the stream
/// whose number is one more than the paths so far, below the capacity of ten million
/// paths. It adds that path with that stream and a record with the fact's content type,
/// expiry and lifecycle, dated with the batch of the fact; nothing else changes.
pub proof fn law_created_streams_have_what_was_said(
    before: ForestModel,
    batch: BatchId,
    path: Seq<u8>,
    uid: StreamUid,
    content_type: Seq<char>,
    expiry: ExpiryPolicy,
    lifecycle: StreamLifecycle,
)
    ensures
        ({
            let fact = FactModel::StreamCreated { path, uid, content_type, expiry, lifecycle };
            let occupied = before.directory.dom().contains(path);
            let count = before.directory.dom().len();
            match before.fold(batch, fact) {
                Ok(after) => {
                    &&& !occupied
                    &&& count < 10_000_000
                    &&& uid.value == count + 1
                    &&& after.directory.dom().contains(path)
                    &&& after.directory[path] == DirectoryEntry::Live(uid)
                    &&& after.ledger.dom().contains(uid.value)
                    &&& after.ledger[uid.value].content_type == content_type
                    &&& after.ledger[uid.value].expiry == expiry
                    &&& after.ledger[uid.value].lifecycle == lifecycle
                    &&& after.ledger[uid.value].created_at == batch
                    &&& differ_only_at(before, after, path, uid.value)
                },
                Err(FoldContradiction::PathOccupied) => occupied,
                Err(FoldContradiction::PathCapacityExhausted) => !occupied && count >= 10_000_000,
                Err(FoldContradiction::UidNotDenseSuccessor) => {
                    &&& !occupied
                    &&& count < 10_000_000
                    &&& uid.value != count + 1
                },
                Err(_) => false,
            }
        }),
{
}

/// A close is accepted exactly of the live, open stream at the path. It makes that
/// stream's lifecycle closed and keeps its content type, expiry and creation batch;
/// nothing else changes, the path's row neither.
pub proof fn law_closed_streams_keep_all_but_the_lifecycle(
    before: ForestModel,
    batch: BatchId,
    path: Seq<u8>,
    uid: StreamUid,
)
    ensures
        ({
            let fact = FactModel::StreamClosed { path, uid };
            let occupied = before.directory.dom().contains(path);
            let entry = before.directory[path];
            let record = before.ledger[uid.value];
            match before.fold(batch, fact) {
                Ok(after) => {
                    &&& occupied && entry == DirectoryEntry::Live(uid)
                    &&& record.lifecycle == StreamLifecycle::Open
                    &&& after.directory == before.directory
                    &&& after.ledger.dom().contains(uid.value)
                    &&& after.ledger[uid.value].lifecycle == StreamLifecycle::Closed
                    &&& after.ledger[uid.value].content_type == record.content_type
                    &&& after.ledger[uid.value].expiry == record.expiry
                    &&& after.ledger[uid.value].created_at == record.created_at
                    &&& differ_only_at(before, after, path, uid.value)
                },
                Err(FoldContradiction::PathNotLive) => !occupied || entry is Tombstone,
                Err(FoldContradiction::PathUidMismatch) => {
                    &&& occupied
                    &&& entry is Live
                    &&& entry != DirectoryEntry::Live(uid)
                },
                Err(FoldContradiction::StreamAlreadyClosed) => {
                    &&& occupied
                    &&& entry == DirectoryEntry::Live(uid)
                    &&& record.lifecycle == StreamLifecycle::Closed
                },
                Err(_) => false,
            }
        }),
{
}

/// A delete is accepted exactly of the live stream at the path. It leaves the mark of
/// that stream at the path and removes its record; nothing else changes.
pub proof fn law_deleted_streams_leave_their_mark(
    before: ForestModel,
    batch: BatchId,
    path: Seq<u8>,
    uid: StreamUid,
)
    ensures
        ({
            let fact = FactModel::StreamDeleted { path, uid };
            let occupied = before.directory.dom().contains(path);
            let entry = before.directory[path];
            match before.fold(batch, fact) {
                Ok(after) => {
                    &&& occupied && entry == DirectoryEntry::Live(uid)
                    &&& after.directory.dom().contains(path)
                    &&& after.directory[path] == DirectoryEntry::Tombstone(uid)
                    &&& !after.ledger.dom().contains(uid.value)
                    &&& differ_only_at(before, after, path, uid.value)
                },
                Err(FoldContradiction::PathNotLive) => !occupied || entry is Tombstone,
                Err(FoldContradiction::PathUidMismatch) => {
                    &&& occupied
                    &&& entry is Live
                    &&& entry != DirectoryEntry::Live(uid)
                },
                Err(_) => false,
            }
        }),
{
}

/// A stream's record, once there, keeps its content type, expiry and creation batch for
/// as long as it is there, and a closed stream never opens again.
pub open spec fn keeps_records(before: ForestModel, after: ForestModel) -> bool {
    forall|uid: u64| #[trigger]
        before.ledger.dom().contains(uid) && after.ledger.dom().contains(uid) ==> {
            &&& after.ledger[uid].content_type == before.ledger[uid].content_type
            &&& after.ledger[uid].expiry == before.ledger[uid].expiry
            &&& after.ledger[uid].created_at == before.ledger[uid].created_at
            &&& before.ledger[uid].lifecycle == StreamLifecycle::Closed ==> after.ledger[uid].lifecycle
                == StreamLifecycle::Closed
        }
}

/// Every stream that `after` has and `before` has not is dated with the batch.
pub open spec fn dates_new_streams(before: ForestModel, after: ForestModel, batch: BatchId) -> bool {
    forall|uid: u64| #[trigger]
        after.ledger.dom().contains(uid) && !before.ledger.dom().contains(uid)
            ==> after.ledger[uid].created_at == batch
}

/// Every path of a forest still belongs to the same stream in a later one, and a
/// deleted one stays deleted.
pub open spec fn keeps_paths(before: ForestModel, after: ForestModel) -> bool {
    forall|path: Seq<u8>| #[trigger]
        before.directory.dom().contains(path) ==> {
            &&& after.directory.dom().contains(path)
            &&& match before.directory[path] {
                DirectoryEntry::Live(uid) => after.directory[path] == DirectoryEntry::Live(uid)
                    || after.directory[path] == DirectoryEntry::Tombstone(uid),
                DirectoryEntry::Tombstone(uid) => after.directory[path]
                    == DirectoryEntry::Tombstone(uid),
            }
        }
}

/// No record has a number above the paths so far, so a creation's number is new.
proof fn lemma_successor_is_new(forest: ForestModel)
    requires
        forest.wf(),
    ensures
        forall|uid: u64| #[trigger]
            forest.ledger.dom().contains(uid) ==> uid <= forest.directory.dom().len(),
{
    assert forall|uid: u64| #[trigger] forest.ledger.dom().contains(uid) implies uid
        <= forest.directory.dom().len() by {
        let path = choose|path: Seq<u8>| #[trigger]
            forest.live(path) == Some(StreamUid { value: uid });
        assert(forest.directory.dom().contains(path));
    }
}

/// The facts of one batch, folded in order, keep every record and every path, and date
/// every stream that they create with that batch.
pub proof fn law_batches_date_their_streams(
    before: ForestModel,
    batch: BatchId,
    facts: Seq<FactModel>,
)
    requires
        before.wf(),
        batch.wf(),
        forall|i: int| 0 <= i < facts.len() ==> (#[trigger] facts[i]).wf(),
    ensures
        before.fold_all(batch, facts) matches Ok(after) ==> {
            &&& keeps_records(before, after)
            &&& keeps_paths(before, after)
            &&& dates_new_streams(before, after, batch)
        },
    decreases facts.len(),
{
    if facts.len() > 0 {
        let rest = facts.drop_last();
        assert forall|i: int| 0 <= i < rest.len() implies (#[trigger] rest[i]).wf() by {
            assert(rest[i] == facts[i]);
        }
        assert(facts[facts.len() - 1].wf());
        law_batches_date_their_streams(before, batch, rest);
        before.law_fold_all_keeps_validity(batch, rest);
        if let Ok(middle) = before.fold_all(batch, rest) {
            lemma_successor_is_new(middle);
            lemma_successor_is_new(before);
            if let Ok(after) = middle.fold(batch, facts.last()) {
                assert forall|uid: u64| #[trigger]
                    before.ledger.dom().contains(uid) && after.ledger.dom().contains(uid) implies {
                    &&& after.ledger[uid].content_type == before.ledger[uid].content_type
                    &&& after.ledger[uid].expiry == before.ledger[uid].expiry
                    &&& after.ledger[uid].created_at == before.ledger[uid].created_at
                    &&& before.ledger[uid].lifecycle == StreamLifecycle::Closed
                        ==> after.ledger[uid].lifecycle == StreamLifecycle::Closed
                } by {
                    if facts.last() is StreamCreated {
                        assert(before.directory.dom().subset_of(middle.directory.dom())) by {
                            before.law_folds_only_add_paths(batch, rest);
                        }
                        vstd::set_lib::lemma_len_subset(
                            before.directory.dom(),
                            middle.directory.dom(),
                        );
                    }
                    assert(middle.ledger.dom().contains(uid));
                }
                assert forall|uid: u64| #[trigger]
                    after.ledger.dom().contains(uid) && !before.ledger.dom().contains(
                        uid,
                    ) implies after.ledger[uid].created_at == batch by {
                    if middle.ledger.dom().contains(uid) {
                        assert(middle.ledger[uid].created_at == batch);
                    } else {
                        assert(middle.live(facts.last().spec_path()) matches Some(live)
                            ==> middle.ledger.dom().contains(live.value));
                    }
                }
                assert forall|path: Seq<u8>| #[trigger]
                    before.directory.dom().contains(path) implies after.directory.dom().contains(path)
                    && match before.directory[path] {
                    DirectoryEntry::Live(uid) => after.directory[path] == DirectoryEntry::Live(uid)
                        || after.directory[path] == DirectoryEntry::Tombstone(uid),
                    DirectoryEntry::Tombstone(uid) => after.directory[path]
                        == DirectoryEntry::Tombstone(uid),
                } by {
                    assert(middle.directory.dom().contains(path));
                }
            }
        }
    }
}

/// Replaying a log object at a coordinate dates every stream that it creates with that
/// coordinate and keeps every record and every path; a FENCE changes no stream.
pub proof fn law_replay_dates_streams_with_their_coordinate(
    owner: Option<OwnerToken>,
    before: ForestModel,
    next: BatchId,
    object: WalModel,
)
    requires
        before.wf(),
        next.wf(),
        object.wf(),
    ensures
        crate::engine::recovery::spec_replay_object(owner, before, next, object) matches Ok((_, after))
            ==> {
            &&& keeps_records(before, after)
            &&& keeps_paths(before, after)
            &&& dates_new_streams(before, after, next)
            &&& object.facts is None ==> after == before
        },
{
    if let Some(facts) = object.facts {
        law_batches_date_their_streams(before, next, facts);
    }
}

// Admission

/// The live stream at a path has this configuration.
pub open spec fn is_configured(
    forest: ForestModel,
    path: Seq<u8>,
    content_type: Seq<char>,
    expiry: ExpiryPolicy,
    lifecycle: StreamLifecycle,
) -> bool {
    &&& forest.directory.dom().contains(path)
    &&& forest.directory[path] matches DirectoryEntry::Live(uid) && {
        &&& forest.ledger[uid.value].content_type == content_type
        &&& forest.ledger[uid.value].expiry == expiry
        &&& forest.ledger[uid.value].lifecycle == lifecycle
    }
}

/// A create is answered as existing exactly when the path's live stream has the same
/// content type, the same expiry and the same lifecycle. It is refused as occupied when
/// the path is occupied in any other way, and for want of capacity when the path is free
/// but ten million paths are taken. Else it is the fact that creates exactly what was
/// asked for, under the next number.
pub proof fn law_creates_are_answered_by_configuration(
    admitted: Forest,
    command: CreateStream,
    batch: BatchId,
    admission: Result<CreateAdmission, AdmissionRefusal>,
)
    requires
        call_ensures(admit_create, (&admitted, &command, batch), admission),
    ensures
        ({
            let path = command.path.bytes@;
            let occupied = admitted@.directory.dom().contains(path);
            let count = admitted@.directory.dom().len();
            let same = is_configured(
                admitted@,
                path,
                command.content_type.text@,
                command.expiry,
                command.lifecycle,
            );
            match admission {
                Ok(CreateAdmission::AlreadyExists) => same,
                Ok(CreateAdmission::Fact(accepted)) => {
                    &&& !occupied
                    &&& count < 10_000_000
                    &&& accepted.fact matches OperationFact::StreamCreated {
                        path: created,
                        uid,
                        content_type,
                        expiry,
                        lifecycle,
                    } && {
                        &&& created.bytes@ == path
                        &&& uid.value == count + 1
                        &&& content_type.text@ == command.content_type.text@
                        &&& expiry == command.expiry
                        &&& lifecycle == command.lifecycle
                        &&& is_configured(
                            accepted.forest@,
                            path,
                            command.content_type.text@,
                            command.expiry,
                            command.lifecycle,
                        )
                        &&& accepted.forest@.directory[path] == DirectoryEntry::Live(uid)
                        &&& accepted.forest@.ledger[uid.value].created_at == batch
                        &&& differ_only_at(admitted@, accepted.forest@, path, uid.value)
                    }
                },
                Err(AdmissionRefusal::PathOccupied) => occupied && !same,
                Err(AdmissionRefusal::PathCapacityExhausted) => !occupied && count >= 10_000_000,
                Err(_) => false,
            }
        }),
{
}

/// Two creates of one path agree: where the first was admitted, the second is answered
/// as existing exactly when it asks for the same content type, expiry and lifecycle, and
/// is refused as occupied when any of the three differs.
pub proof fn law_another_configuration_is_refused(
    admitted: ForestModel,
    first: crate::engine::admission::CreateModel,
    second: crate::engine::admission::CreateModel,
    batch: BatchId,
)
    requires
        admitted.wf(),
        first.path == second.path,
    ensures
        crate::engine::admission::spec_admit_create(admitted, first) matches Ok(Some(fact))
            ==> (admitted.fold(batch, fact) matches Ok(after) && {
            let again = crate::engine::admission::spec_admit_create(after, second);
            let same = first.content_type == second.content_type && first.expiry == second.expiry
                && first.lifecycle == second.lifecycle;
            &&& same ==> again == Ok::<Option<FactModel>, AdmissionRefusal>(None)
            &&& !same ==> again == Err::<Option<FactModel>, AdmissionRefusal>(
                AdmissionRefusal::PathOccupied,
            )
        }),
{
}

/// A close is refused exactly when the path has no live stream; it is answered as closed
/// exactly when the live stream's lifecycle is closed; else it is the fact that closes
/// the path's stream, whatever else its record says.
pub proof fn law_closes_are_answered_by_lifecycle(
    admitted: Forest,
    path: DirectoryKey,
    batch: BatchId,
    admission: Result<CloseAdmission, AdmissionRefusal>,
)
    requires
        call_ensures(admit_close, (&admitted, &path, batch), admission),
    ensures
        ({
            let occupied = admitted@.directory.dom().contains(path.bytes@);
            let entry = admitted@.directory[path.bytes@];
            match admission {
                Ok(CloseAdmission::Fact(accepted)) => {
                    &&& occupied
                    &&& accepted.fact matches OperationFact::StreamClosed { path: closed, uid } && {
                        &&& closed.bytes@ == path.bytes@
                        &&& entry == DirectoryEntry::Live(uid)
                        &&& admitted@.ledger[uid.value].lifecycle == StreamLifecycle::Open
                        &&& accepted.forest@.directory == admitted@.directory
                        &&& accepted.forest@.ledger[uid.value].lifecycle == StreamLifecycle::Closed
                        &&& accepted.forest@.ledger[uid.value].expiry
                            == admitted@.ledger[uid.value].expiry
                        &&& accepted.forest@.ledger[uid.value].content_type
                            == admitted@.ledger[uid.value].content_type
                        &&& accepted.forest@.ledger[uid.value].created_at
                            == admitted@.ledger[uid.value].created_at
                        &&& differ_only_at(admitted@, accepted.forest@, path.bytes@, uid.value)
                    }
                },
                Ok(CloseAdmission::AlreadyClosed) => {
                    &&& occupied
                    &&& entry matches DirectoryEntry::Live(uid)
                        && admitted@.ledger[uid.value].lifecycle == StreamLifecycle::Closed
                },
                Err(AdmissionRefusal::PathNotLive) => !occupied || entry is Tombstone,
                Err(_) => false,
            }
        }),
{
}

/// A delete is admitted exactly when the path has a live stream, whatever its record
/// says, as the fact that deletes that stream; it is refused as not live exactly when
/// the path is free or deleted.
pub proof fn law_every_live_stream_can_be_deleted(
    admitted: Forest,
    path: DirectoryKey,
    batch: BatchId,
    admission: Result<AdmittedCommand, AdmissionRefusal>,
)
    requires
        call_ensures(admit_delete, (&admitted, &path, batch), admission),
    ensures
        ({
            let occupied = admitted@.directory.dom().contains(path.bytes@);
            let entry = admitted@.directory[path.bytes@];
            match admission {
                Ok(accepted) => {
                    &&& occupied
                    &&& accepted.fact matches OperationFact::StreamDeleted { path: deleted, uid } && {
                        &&& deleted.bytes@ == path.bytes@
                        &&& entry == DirectoryEntry::Live(uid)
                        &&& accepted.forest@.directory[path.bytes@]
                            == DirectoryEntry::Tombstone(uid)
                        &&& accepted.forest@.directory.dom().contains(path.bytes@)
                        &&& !accepted.forest@.ledger.dom().contains(uid.value)
                        &&& differ_only_at(admitted@, accepted.forest@, path.bytes@, uid.value)
                    }
                },
                Err(AdmissionRefusal::PathNotLive) => !occupied || entry is Tombstone,
                Err(_) => false,
            }
        }),
{
}

// Reads

/// A path that was never occupied reads as missing, a deleted one as deleted, and a live
/// one as live with the content type, the expiry and the lifecycle of its stream's
/// record.
pub proof fn law_reads_show_the_record(
    view: PublishedView,
    path: DirectoryKey,
    status: StreamStatus,
)
    requires
        call_ensures(PublishedView::stream, (&view, &path), status),
    ensures
        ({
            let occupied = view.forest@.directory.dom().contains(path.bytes@);
            let entry = view.forest@.directory[path.bytes@];
            match status {
                StreamStatus::Missing => !occupied,
                StreamStatus::Deleted => occupied && entry is Tombstone,
                StreamStatus::Live { content_type, expiry, lifecycle } => is_configured(
                    view.forest@,
                    path.bytes@,
                    content_type.text@,
                    expiry,
                    lifecycle,
                ),
            }
        }),
{
}

/// What a path reads as, over all histories of one more fact: a created stream reads
/// live with what was asked for, a closed one reads as before but closed, a deleted one
/// reads deleted, and every other path reads as before.
pub proof fn law_reads_follow_the_facts(before: ForestModel, batch: BatchId, fact: FactModel)
    requires
        before.wf(),
        fact.wf(),
    ensures
        before.fold(batch, fact) matches Ok(after) ==> {
            &&& match fact {
                FactModel::StreamCreated { path, uid: _, content_type, expiry, lifecycle } => {
                    crate::engine::service::spec_stream(after, path) == (StatusModel::Live {
                        content_type,
                        expiry,
                        lifecycle,
                    })
                },
                FactModel::StreamClosed { path, uid: _ } => {
                    crate::engine::service::spec_stream(before, path) matches StatusModel::Live {
                        content_type,
                        expiry,
                        lifecycle,
                    } && crate::engine::service::spec_stream(after, path) == (StatusModel::Live {
                        content_type,
                        expiry,
                        lifecycle: StreamLifecycle::Closed,
                    })
                },
                FactModel::StreamDeleted { path, uid: _ } => crate::engine::service::spec_stream(
                    after,
                    path,
                ) is Deleted,
            }
            &&& forall|other: Seq<u8>|
                other != fact.spec_path() ==> #[trigger] crate::engine::service::spec_stream(
                    after,
                    other,
                ) == crate::engine::service::spec_stream(before, other)
        },
{
    if let Ok(after) = before.fold(batch, fact) {
        lemma_successor_is_new(before);
        assert forall|other: Seq<u8>|
            other != fact.spec_path() implies #[trigger] crate::engine::service::spec_stream(
            after,
            other,
        ) == crate::engine::service::spec_stream(before, other) by {
            if before.directory.dom().contains(other) {
                if let DirectoryEntry::Live(uid) = before.directory[other] {
                    assert(before.live(other) == Some(uid));
                    assert(before.ledger.dom().contains(uid.value));
                    if before.directory.dom().contains(fact.spec_path()) {
                        assert(before.directory[fact.spec_path()].spec_uid()
                            != before.directory[other].spec_uid());
                    }
                }
            }
        }
    }
}

} // verus!
