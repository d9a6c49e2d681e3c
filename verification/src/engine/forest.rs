//! Pure two-map forest: Directory and Ledger under strict fold.

use vstd::prelude::*;

use crate::domain::bounds::PARTITION_PATH_OCCUPANCIES_MAX_V2;
use crate::domain::coordinate::{BatchId, StreamUid};
use crate::domain::directory::{DirectoryEntry, DirectoryKey};
use crate::domain::ledger::{RecordModel, StreamRecord};
use crate::domain::protocol::StreamLifecycle;
use crate::domain::text::copy_bytes;
use crate::domain::wal::{FactModel, OperationFact};
use crate::engine::ordered::{DirectoryRows, LedgerRows};

verus! {

/// Resident Directory and Ledger under the no-forks cross-store invariants.
#[derive(Debug, PartialEq, Eq)]
pub struct Forest {
    pub directory: DirectoryRows,
    pub ledger: LedgerRows,
}

/// What a forest holds: paths with their entries, streams with their records.
pub struct ForestModel {
    pub directory: Map<Seq<u8>, DirectoryEntry>,
    pub ledger: Map<u64, RecordModel>,
}

impl View for Forest {
    type V = ForestModel;

    open spec fn view(&self) -> ForestModel {
        ForestModel { directory: self.directory@, ledger: self.ledger@ }
    }
}

impl Clone for Forest {
    fn clone(&self) -> (copy: Self)
        ensures
            copy@ == self@,
    {
        Forest { directory: self.directory.clone(), ledger: self.ledger.clone() }
    }
}

/// Zero-sized witness that one fact applied exactly once.
#[derive(Debug, Clone, Copy, PartialEq, Eq, Structural)]
pub struct Applied;

/// A fact that cannot join this forest under strict fold.
#[derive(Debug, Clone, Copy, PartialEq, Eq, Structural)]
pub enum FoldContradiction {
    /// Create: the path already has a Live or Tombstone row.
    PathOccupied,
    /// Create: lifetime path occupancies are at the V2 bound.
    PathCapacityExhausted,
    /// Create: the fact uid is not `path_count + 1`.
    UidNotDenseSuccessor,
    /// Close or delete: the row is absent or a Tombstone.
    PathNotLive,
    /// Close or delete: the Live uid differs from the fact.
    PathUidMismatch,
    /// Close: the ledger record is already Closed.
    StreamAlreadyClosed,
}

impl FoldContradiction {
    pub open spec fn spec_message(self) -> Seq<char> {
        match self {
            FoldContradiction::PathOccupied => "path is already occupied"@,
            FoldContradiction::PathCapacityExhausted => "partition path capacity is exhausted"@,
            FoldContradiction::UidNotDenseSuccessor => "stream uid is not the dense successor"@,
            FoldContradiction::PathNotLive => "path is not live"@,
            FoldContradiction::PathUidMismatch => "path uid does not match"@,
            FoldContradiction::StreamAlreadyClosed => "stream is already closed"@,
        }
    }

    /// The message shown for this contradiction.
    pub fn to_string(&self) -> (message: String)
        ensures
            message@ == self.spec_message(),
    {
        let text = match *self {
            FoldContradiction::PathOccupied => "path is already occupied",
            FoldContradiction::PathCapacityExhausted => "partition path capacity is exhausted",
            FoldContradiction::UidNotDenseSuccessor => "stream uid is not the dense successor",
            FoldContradiction::PathNotLive => "path is not live",
            FoldContradiction::PathUidMismatch => "path uid does not match",
            FoldContradiction::StreamAlreadyClosed => "stream is already closed",
        };
        String::from_str(text)
    }
}

/// Merged Directory and Ledger rows that cannot form a complete forest.
#[derive(Debug, Clone, Copy, PartialEq, Eq, Structural)]
pub enum ForestContradiction {
    /// Directory stream uids are not dense and unique.
    UidGap,
    /// Directory row count differs from the maximum allocated stream uid.
    CountMismatch,
    /// A Live Directory row has no Ledger record.
    LiveWithoutRecord,
    /// A Ledger record has no Live Directory row.
    RecordWithoutLive,
    /// A Tombstone Directory row still has a Ledger record.
    TombstoneWithRecord,
}

impl ForestContradiction {
    pub open spec fn spec_message(self) -> Seq<char> {
        match self {
            ForestContradiction::UidGap => "Directory stream uids are not dense and unique"@,
            ForestContradiction::CountMismatch =>
                "Directory row count differs from the maximum allocated stream uid"@,
            ForestContradiction::LiveWithoutRecord =>
                "a Live Directory row has no Ledger record"@,
            ForestContradiction::RecordWithoutLive =>
                "a Ledger record has no Live Directory row"@,
            ForestContradiction::TombstoneWithRecord =>
                "a Tombstone Directory row still has a Ledger record"@,
        }
    }

    /// The message shown for this contradiction.
    pub fn to_string(&self) -> (message: String)
        ensures
            message@ == self.spec_message(),
    {
        let text = match *self {
            ForestContradiction::UidGap => "Directory stream uids are not dense and unique",
            ForestContradiction::CountMismatch =>
                "Directory row count differs from the maximum allocated stream uid",
            ForestContradiction::LiveWithoutRecord => "a Live Directory row has no Ledger record",
            ForestContradiction::RecordWithoutLive => "a Ledger record has no Live Directory row",
            ForestContradiction::TombstoneWithRecord =>
                "a Tombstone Directory row still has a Ledger record",
        };
        String::from_str(text)
    }
}

/// The uid of the next stream to be created.
pub open spec fn spec_successor_uid(path_count: nat) -> Result<StreamUid, FoldContradiction> {
    if path_count >= PARTITION_PATH_OCCUPANCIES_MAX_V2 {
        Err(FoldContradiction::PathCapacityExhausted)
    } else {
        Ok(StreamUid { value: (path_count + 1) as u64 })
    }
}

/// One function owns both create-allocation gates, so capacity is proven before
/// the dense successor is constructed.
pub fn decide_successor_uid(path_count: u64) -> (uid: Result<StreamUid, FoldContradiction>)
    ensures
        uid == spec_successor_uid(path_count as nat),
        uid matches Ok(uid) ==> uid.wf(),
{
    if path_count >= PARTITION_PATH_OCCUPANCIES_MAX_V2 {
        return Err(FoldContradiction::PathCapacityExhausted);
    }
    Ok(StreamUid { value: path_count + 1 })
}

impl ForestModel {
    pub open spec fn empty() -> Self {
        ForestModel { directory: Map::empty(), ledger: Map::empty() }
    }

    /// How many paths were ever occupied.
    pub open spec fn path_count(self) -> nat {
        self.directory.dom().len()
    }

    /// The path's live stream, if it has one.
    pub open spec fn live(self, path: Seq<u8>) -> Option<StreamUid> {
        if self.directory.dom().contains(path) {
            match self.directory[path] {
                DirectoryEntry::Live(uid) => Some(uid),
                DirectoryEntry::Tombstone(_) => None,
            }
        } else {
            None
        }
    }

    /// Paths and records are inside the protocol's bounds.
    pub open spec fn fits(self) -> bool {
        &&& forall|path: Seq<u8>| #[trigger]
            self.directory.dom().contains(path) ==> crate::domain::protocol::path_fits(path)
        &&& forall|uid: u64| #[trigger]
            self.ledger.dom().contains(uid) ==> self.ledger[uid].wf()
    }

    /// Uids are unique and none is greater than the path count, so they are dense;
    /// exactly the live streams have records. Paths and records are inside the
    /// protocol's bounds.
    pub open spec fn wf(self) -> bool {
        &&& self.fits()
        &&& self.directory.dom().finite()
        &&& self.path_count() <= PARTITION_PATH_OCCUPANCIES_MAX_V2
        &&& forall|path: Seq<u8>| #[trigger]
            self.directory.dom().contains(path) ==> 1 <= self.directory[path].spec_uid().value
                <= self.path_count()
        &&& forall|left: Seq<u8>, right: Seq<u8>|
            #![trigger self.directory.dom().contains(left), self.directory.dom().contains(right)]
            self.directory.dom().contains(left) && self.directory.dom().contains(right)
                && self.directory[left].spec_uid() == self.directory[right].spec_uid() ==> left
                == right
        &&& forall|path: Seq<u8>|
            #![trigger self.live(path)]
            self.live(path) matches Some(uid) ==> self.ledger.dom().contains(uid.value)
        &&& forall|uid: u64| #[trigger]
            self.ledger.dom().contains(uid) ==> exists|path: Seq<u8>| #[trigger]
                self.live(path) == Some(StreamUid { value: uid })
    }

    /// The forest after one fact, or why the fact cannot join it.
    pub open spec fn fold(self, batch: BatchId, fact: FactModel) -> Result<Self, FoldContradiction> {
        match fact {
            FactModel::StreamCreated { path, uid, content_type, expiry, lifecycle } => {
                if self.directory.dom().contains(path) {
                    Err(FoldContradiction::PathOccupied)
                } else {
                    match spec_successor_uid(self.path_count()) {
                        Err(contradiction) => Err(contradiction),
                        Ok(expected) => if uid != expected {
                            Err(FoldContradiction::UidNotDenseSuccessor)
                        } else {
                            Ok(
                                ForestModel {
                                    directory: self.directory.insert(
                                        path,
                                        DirectoryEntry::Live(uid),
                                    ),
                                    ledger: self.ledger.insert(
                                        uid.value,
                                        RecordModel {
                                            content_type,
                                            expiry,
                                            lifecycle,
                                            created_at: batch,
                                        },
                                    ),
                                },
                            )
                        },
                    }
                }
            },
            FactModel::StreamClosed { path, uid } => match self.live(path) {
                None => Err(FoldContradiction::PathNotLive),
                Some(live) => if live != uid {
                    Err(FoldContradiction::PathUidMismatch)
                } else if self.ledger[uid.value].lifecycle == StreamLifecycle::Closed {
                    Err(FoldContradiction::StreamAlreadyClosed)
                } else {
                    Ok(
                        ForestModel {
                            directory: self.directory,
                            ledger: self.ledger.insert(
                                uid.value,
                                self.ledger[uid.value].closed(),
                            ),
                        },
                    )
                },
            },
            FactModel::StreamDeleted { path, uid } => match self.live(path) {
                None => Err(FoldContradiction::PathNotLive),
                Some(live) => if live != uid {
                    Err(FoldContradiction::PathUidMismatch)
                } else {
                    Ok(
                        ForestModel {
                            directory: self.directory.insert(path, DirectoryEntry::Tombstone(uid)),
                            ledger: self.ledger.remove(uid.value),
                        },
                    )
                },
            },
        }
    }

    /// The forest after facts of one batch, in order; the first contradiction stops.
    pub open spec fn fold_all(self, batch: BatchId, facts: Seq<FactModel>) -> Result<
        Self,
        FoldContradiction,
    >
        decreases facts.len(),
    {
        if facts.len() == 0 {
            Ok(self)
        } else {
            match self.fold_all(batch, facts.drop_last()) {
                Ok(forest) => forest.fold(batch, facts.last()),
                Err(contradiction) => Err(contradiction),
            }
        }
    }

    /// An empty forest keeps the cross-store invariants.
    pub proof fn law_empty_is_valid()
        ensures
            Self::empty().wf(),
    {
        assert forall|path: Seq<u8>| #[trigger] Self::empty().live(path) is None by {}
    }

    /// A path that was ever occupied stays occupied: facts only add paths.
    pub proof fn law_folds_only_add_paths(self, batch: BatchId, facts: Seq<FactModel>)
        ensures
            self.fold_all(batch, facts) matches Ok(after) ==> self.directory.dom().subset_of(
                after.directory.dom(),
            ),
        decreases facts.len(),
    {
        if facts.len() > 0 {
            self.law_folds_only_add_paths(batch, facts.drop_last());
        }
    }

    /// Every fact that joins a valid forest leaves a valid forest: the path count
    /// never shrinks, uids stay dense and unique, and exactly the live streams
    /// have records.
    pub proof fn law_fold_keeps_validity(self, batch: BatchId, fact: FactModel)
        requires
            self.wf(),
            batch.wf(),
            fact.wf(),
        ensures
            self.fold(batch, fact) matches Ok(after) ==> after.wf() && after.path_count()
                >= self.path_count(),
    {
        if let Ok(after) = self.fold(batch, fact) {
            assert(after.fits()) by {
                assert forall|path: Seq<u8>| #[trigger]
                    after.directory.dom().contains(path) implies crate::domain::protocol::path_fits(
                    path,
                ) by {
                    if path != fact.spec_path() {
                        assert(self.directory.dom().contains(path));
                    }
                }
                assert forall|uid: u64| #[trigger]
                    after.ledger.dom().contains(uid) implies after.ledger[uid].wf() by {
                    assert(self.live(fact.spec_path()) matches Some(live)
                        ==> self.ledger.dom().contains(live.value));
                    if uid != fact.spec_uid().value {
                        assert(self.ledger.dom().contains(uid));
                    }
                }
            }
            match fact {
                FactModel::StreamCreated { path, uid, .. } => {
                    lemma_created_is_valid(self, after, path, uid);
                },
                FactModel::StreamClosed { path, uid } => {
                    assert forall|other: Seq<u8>| #[trigger] after.live(other) == self.live(other) by {}
                    assert forall|u: u64| #[trigger] after.ledger.dom().contains(u) implies exists|
                        other: Seq<u8>,
                    | #[trigger] after.live(other) == Some(StreamUid { value: u }) by {
                        if u == uid.value {
                            assert(after.live(path) == Some(StreamUid { value: u }));
                        } else {
                            assert(self.ledger.dom().contains(u));
                            let other = choose|other: Seq<u8>| #[trigger]
                                self.live(other) == Some(StreamUid { value: u });
                            assert(after.live(other) == Some(StreamUid { value: u }));
                        }
                    }
                },
                FactModel::StreamDeleted { path, uid } => {
                    lemma_deleted_is_valid(self, after, path, uid);
                },
            }
        }
    }

    /// Folding any run of facts into a valid forest leaves a valid forest.
    pub proof fn law_fold_all_keeps_validity(self, batch: BatchId, facts: Seq<FactModel>)
        requires
            self.wf(),
            batch.wf(),
            forall|i: int| 0 <= i < facts.len() ==> (#[trigger] facts[i]).wf(),
        ensures
            self.fold_all(batch, facts) matches Ok(after) ==> after.wf() && after.path_count()
                >= self.path_count(),
        decreases facts.len(),
    {
        if facts.len() > 0 {
            assert forall|i: int| 0 <= i < facts.drop_last().len() implies (
            #[trigger] facts.drop_last()[i]).wf() by {
                assert(facts.drop_last()[i] == facts[i]);
            }
            assert(facts[facts.len() - 1].wf());
            self.law_fold_all_keeps_validity(batch, facts.drop_last());
            if let Ok(before) = self.fold_all(batch, facts.drop_last()) {
                before.law_fold_keeps_validity(batch, facts.last());
            }
        }
    }

    /// Folding two stretches of facts one after the other is folding both at once.
    pub proof fn law_fold_all_appends(
        self,
        batch: BatchId,
        first: Seq<FactModel>,
        second: Seq<FactModel>,
    )
        ensures
            self.fold_all(batch, first + second) == (match self.fold_all(batch, first) {
                Ok(forest) => forest.fold_all(batch, second),
                Err(contradiction) => Err(contradiction),
            }),
        decreases second.len(),
    {
        if second.len() == 0 {
            assert(first + second =~= first);
        } else {
            self.law_fold_all_appends(batch, first, second.drop_last());
            assert((first + second).drop_last() =~= first + second.drop_last());
            assert((first + second).last() == second.last());
        }
    }

    /// A path once occupied stays occupied: no fact frees a path.
    pub proof fn law_fold_keeps_occupancy(self, batch: BatchId, fact: FactModel, path: Seq<u8>)
        requires
            self.directory.dom().contains(path),
        ensures
            self.fold(batch, fact) matches Ok(after) ==> {
                &&& after.directory.dom().contains(path)
                &&& after.directory[path].spec_uid() == self.directory[path].spec_uid()
            },
    {
    }

    /// In a valid forest every uid up to the path count belongs to a path: uids are
    /// dense.
    pub proof fn law_uids_are_dense(self, uid: u64)
        requires
            self.wf(),
            1 <= uid <= self.path_count(),
        ensures
            exists|path: Seq<u8>| #[trigger]
                self.directory.dom().contains(path) && self.directory[path].spec_uid().value == uid,
    {
        let n = self.path_count() as int;
        let used = self.directory.dom().map(|path: Seq<u8>| self.directory[path].spec_uid().value as int);
        let all = vstd::set_lib::set_int_range(1, n + 1);
        vstd::set_lib::lemma_int_range(1, n + 1);
        lemma_uids_count(self.directory, self.directory.dom());
        assert(used.subset_of(all)) by {
            assert forall|u: int| used.contains(u) implies all.contains(u) by {
                let path = choose|path: Seq<u8>|
                    self.directory.dom().contains(path) && self.directory[path].spec_uid().value as int
                        == u;
                assert(self.directory.dom().contains(path));
            }
        }
        vstd::set_lib::lemma_subset_equality(used, all);
        assert(all.contains(uid as int));
        assert(used.contains(uid as int));
        let path = choose|path: Seq<u8>|
            self.directory.dom().contains(path) && self.directory[path].spec_uid().value as int
                == uid as int;
        assert(self.directory.dom().contains(path));
    }
}

proof fn lemma_uids_count(directory: Map<Seq<u8>, DirectoryEntry>, paths: Set<Seq<u8>>)
    requires
        paths.finite(),
        paths.subset_of(directory.dom()),
        forall|left: Seq<u8>, right: Seq<u8>|
            #![trigger directory.dom().contains(left), directory.dom().contains(right)]
            directory.dom().contains(left) && directory.dom().contains(right)
                && directory[left].spec_uid() == directory[right].spec_uid() ==> left == right,
    ensures
        paths.map(|path: Seq<u8>| directory[path].spec_uid().value as int).finite(),
        paths.map(|path: Seq<u8>| directory[path].spec_uid().value as int).len() == paths.len(),
    decreases paths.len(),
{
    let uid_of = |path: Seq<u8>| directory[path].spec_uid().value as int;
    let used = paths.map(uid_of);
    if paths.len() == 0 {
        assert(paths =~= Set::empty());
        assert(used =~= Set::empty());
    } else {
        let path = paths.choose();
        let rest = paths.remove(path);
        lemma_uids_count(directory, rest);
        let rest_used = rest.map(uid_of);
        assert(!rest_used.contains(uid_of(path))) by {
            if rest_used.contains(uid_of(path)) {
                let other = choose|other: Seq<u8>| rest.contains(other) && uid_of(other) == uid_of(path);
                assert(directory.dom().contains(other) && directory.dom().contains(path));
                assert(directory[other].spec_uid() == directory[path].spec_uid());
            }
        }
        assert(used =~= rest_used.insert(uid_of(path))) by {
            assert forall|u: int| used.contains(u) == rest_used.insert(uid_of(path)).contains(u) by {
                if used.contains(u) {
                    let other = choose|other: Seq<u8>| paths.contains(other) && uid_of(other) == u;
                    if other != path {
                        assert(rest.contains(other));
                    }
                }
                if rest_used.contains(u) {
                    let other = choose|other: Seq<u8>| rest.contains(other) && uid_of(other) == u;
                    assert(paths.contains(other));
                }
                if u == uid_of(path) {
                    assert(paths.contains(path));
                }
            }
        }
    }
}

proof fn lemma_created_is_valid(
    before: ForestModel,
    after: ForestModel,
    path: Seq<u8>,
    uid: StreamUid,
)
    requires
        before.wf(),
        !before.directory.dom().contains(path),
        before.path_count() < PARTITION_PATH_OCCUPANCIES_MAX_V2,
        uid.value == before.path_count() + 1,
        after.directory == before.directory.insert(path, DirectoryEntry::Live(uid)),
        after.ledger.dom() == before.ledger.dom().insert(uid.value),
        after.fits(),
    ensures
        after.wf(),
        after.path_count() == before.path_count() + 1,
{
    assert(after.directory.dom() =~= before.directory.dom().insert(path));
    assert forall|other: Seq<u8>| #[trigger] after.live(other) == (if other == path {
        Some(uid)
    } else {
        before.live(other)
    }) by {}
    assert forall|other: Seq<u8>| #[trigger] after.directory.dom().contains(other) implies 1
        <= after.directory[other].spec_uid().value <= after.path_count() by {
        if other != path {
            assert(before.directory.dom().contains(other));
        }
    }
    assert forall|left: Seq<u8>, right: Seq<u8>|
        #![trigger after.directory.dom().contains(left), after.directory.dom().contains(right)]
        after.directory.dom().contains(left) && after.directory.dom().contains(right)
            && after.directory[left].spec_uid() == after.directory[right].spec_uid() implies left
        == right by {
        if left != path {
            assert(before.directory.dom().contains(left));
        }
        if right != path {
            assert(before.directory.dom().contains(right));
        }
    }
    assert forall|other: Seq<u8>| #![trigger after.live(other)] after.live(other) matches Some(
        found,
    ) ==> after.ledger.dom().contains(found.value) by {
        if other != path {
            assert(before.live(other) == after.live(other));
        }
    }
    assert forall|u: u64| #[trigger] after.ledger.dom().contains(u) implies exists|other: Seq<u8>|
        #[trigger] after.live(other) == Some(StreamUid { value: u }) by {
        if u == uid.value {
            assert(after.live(path) == Some(StreamUid { value: u }));
        } else {
            assert(before.ledger.dom().contains(u));
            let other = choose|other: Seq<u8>| #[trigger]
                before.live(other) == Some(StreamUid { value: u });
            assert(before.directory.dom().contains(other));
            assert(after.live(other) == Some(StreamUid { value: u }));
        }
    }
}

proof fn lemma_deleted_is_valid(
    before: ForestModel,
    after: ForestModel,
    path: Seq<u8>,
    uid: StreamUid,
)
    requires
        before.wf(),
        before.live(path) == Some(uid),
        after.directory == before.directory.insert(path, DirectoryEntry::Tombstone(uid)),
        after.ledger == before.ledger.remove(uid.value),
        after.fits(),
    ensures
        after.wf(),
        after.path_count() == before.path_count(),
{
    assert(before.directory.dom().contains(path));
    assert(after.directory.dom() =~= before.directory.dom());
    assert forall|other: Seq<u8>| #[trigger] after.live(other) == (if other == path {
        None
    } else {
        before.live(other)
    }) by {}
    assert forall|other: Seq<u8>| #[trigger] after.directory.dom().contains(other) implies 1
        <= after.directory[other].spec_uid().value <= after.path_count() by {
        assert(before.directory.dom().contains(other));
    }
    assert forall|left: Seq<u8>, right: Seq<u8>|
        #![trigger after.directory.dom().contains(left), after.directory.dom().contains(right)]
        after.directory.dom().contains(left) && after.directory.dom().contains(right)
            && after.directory[left].spec_uid() == after.directory[right].spec_uid() implies left
        == right by {
        assert(before.directory.dom().contains(left) && before.directory.dom().contains(right));
        assert(before.directory[left].spec_uid() == after.directory[left].spec_uid());
        assert(before.directory[right].spec_uid() == after.directory[right].spec_uid());
    }
    assert forall|other: Seq<u8>| #![trigger after.live(other)] after.live(other) matches Some(
        found,
    ) ==> after.ledger.dom().contains(found.value) by {
        if other != path {
            if let Some(found) = after.live(other) {
                assert(before.live(other) == Some(found));
                assert(before.directory.dom().contains(other));
                assert(found != uid);
            }
        }
    }
    assert forall|u: u64| #[trigger] after.ledger.dom().contains(u) implies exists|other: Seq<u8>|
        #[trigger] after.live(other) == Some(StreamUid { value: u }) by {
        assert(before.ledger.dom().contains(u));
        let other = choose|other: Seq<u8>| #[trigger]
            before.live(other) == Some(StreamUid { value: u });
        assert(after.live(other) == Some(StreamUid { value: u }));
    }
}

impl Forest {
    pub open spec fn wf(self) -> bool {
        self@.wf()
    }

    pub fn empty() -> (forest: Self)
        ensures
            forest@ == ForestModel::empty(),
            forest.wf(),
    {
        let forest = Forest { directory: DirectoryRows::new(), ledger: LedgerRows::new() };
        proof {
            assert(forest.directory@ =~= ForestModel::empty().directory);
            assert(forest.ledger@ =~= ForestModel::empty().ledger);
            ForestModel::law_empty_is_valid();
        }
        forest
    }

    /// Applies one fact at `batch` under the strict fold rules. A rejected fold
    /// leaves the forest unchanged.
    pub fn strict_fold(&mut self, batch: BatchId, fact: &OperationFact) -> (applied: Result<
        Applied,
        FoldContradiction,
    >)
        requires
            old(self).wf(),
            batch.wf(),
            fact@.wf(),
        ensures
            final(self).wf(),
            match applied {
                Ok(_) => old(self)@.fold(batch, fact@) == Ok::<ForestModel, FoldContradiction>(
                    final(self)@,
                ),
                Err(contradiction) => old(self)@.fold(batch, fact@) == Err::<
                    ForestModel,
                    FoldContradiction,
                >(contradiction) && final(self)@ == old(self)@,
            },
    {
        let ghost before = self@;
        proof {
            before.law_fold_keeps_validity(batch, fact@);
        }
        match fact {
            OperationFact::StreamCreated { path, uid, content_type, expiry, lifecycle } => {
                if self.directory.get(path.as_bytes()).is_some() {
                    return Err(FoldContradiction::PathOccupied);
                }
                let expected_uid = match decide_successor_uid(self.path_count()) {
                    Ok(expected_uid) => expected_uid,
                    Err(contradiction) => {
                        return Err(contradiction);
                    },
                };
                if *uid != expected_uid {
                    return Err(FoldContradiction::UidNotDenseSuccessor);
                }
                self.directory.insert(copy_bytes(path.as_bytes()), DirectoryEntry::Live(*uid));
                self.ledger.insert(
                    uid.value,
                    StreamRecord::new(content_type.clone(), *expiry, *lifecycle, batch),
                );
                Ok(Applied)
            },
            OperationFact::StreamClosed { path, uid } => {
                let live_uid = match require_live_uid(self.directory.get(path.as_bytes()), *uid) {
                    Ok(live_uid) => live_uid,
                    Err(contradiction) => {
                        return Err(contradiction);
                    },
                };
                assert(before.live(path@) == Some(*uid));
                let closed = match self.ledger.get(live_uid.value) {
                    Some(record) => {
                        if record.lifecycle == StreamLifecycle::Closed {
                            return Err(FoldContradiction::StreamAlreadyClosed);
                        }
                        StreamRecord::new(
                            record.content_type.clone(),
                            record.expiry,
                            StreamLifecycle::Closed,
                            record.created_at,
                        )
                    },
                    None => {
                        assert(false);
                        return Err(FoldContradiction::PathNotLive);
                    },
                };
                self.ledger.insert(live_uid.value, closed);
                Ok(Applied)
            },
            OperationFact::StreamDeleted { path, uid } => {
                let live_uid = match require_live_uid(self.directory.get(path.as_bytes()), *uid) {
                    Ok(live_uid) => live_uid,
                    Err(contradiction) => {
                        return Err(contradiction);
                    },
                };
                assert(before.live(path@) == Some(*uid));
                self.directory.insert(
                    copy_bytes(path.as_bytes()),
                    DirectoryEntry::Tombstone(live_uid),
                );
                self.ledger.remove(live_uid.value);
                Ok(Applied)
            },
        }
    }

    /// What a path holds.
    pub fn resolve(&self, path: &DirectoryKey) -> (entry: Option<DirectoryEntry>)
        ensures
            match entry {
                Some(entry) => self@.directory.dom().contains(path@) && self@.directory[path@]
                    == entry,
                None => !self@.directory.dom().contains(path@),
            },
    {
        self.directory.get(path.as_bytes())
    }

    /// The record of a live stream.
    pub fn record(&self, uid: StreamUid) -> (record: Option<&StreamRecord>)
        ensures
            match record {
                Some(record) => self@.ledger.dom().contains(uid.value) && self@.ledger[uid.value]
                    == record@,
                None => !self@.ledger.dom().contains(uid.value),
            },
    {
        self.ledger.get(uid.value)
    }

    /// How many paths were ever occupied.
    pub fn path_count(&self) -> (count: u64)
        ensures
            count == self@.path_count(),
    {
        self.directory.len() as u64
    }

    /// The uid of the next stream to be created.
    pub fn successor_uid(&self) -> (uid: Result<StreamUid, FoldContradiction>)
        ensures
            uid == spec_successor_uid(self@.path_count()),
            uid matches Ok(uid) ==> uid.wf(),
    {
        decide_successor_uid(self.path_count())
    }
}

fn require_live_uid(entry: Option<DirectoryEntry>, uid: StreamUid) -> (live: Result<
    StreamUid,
    FoldContradiction,
>)
    ensures
        live == (match entry {
            Some(DirectoryEntry::Live(live_uid)) => if live_uid == uid {
                Ok(uid)
            } else {
                Err(FoldContradiction::PathUidMismatch)
            },
            _ => Err(FoldContradiction::PathNotLive),
        }),
{
    match entry {
        Some(DirectoryEntry::Live(live_uid)) => if live_uid == uid {
            Ok(live_uid)
        } else {
            Err(FoldContradiction::PathUidMismatch)
        },
        _ => Err(FoldContradiction::PathNotLive),
    }
}

// Construction from merged rows

/// The only listing of a Directory map.
pub open spec fn directory_listing(contents: Map<Seq<u8>, DirectoryEntry>) -> Seq<
    (Seq<u8>, DirectoryEntry),
> {
    choose|rows: Seq<(Seq<u8>, DirectoryEntry)>|
        crate::engine::ordered::directory_lists(rows, contents)
}

/// The only listing of a Ledger map.
pub open spec fn ledger_listing(contents: Map<u64, RecordModel>) -> Seq<(u64, RecordModel)> {
    choose|rows: Seq<(u64, RecordModel)>| crate::engine::ordered::ledger_lists(rows, contents)
}

/// What is wrong with the uid of one listed entry: a gap when it is the reserved
/// zero or an earlier entry's, a count mismatch when it exceeds the row count.
pub open spec fn entry_error(rows: Seq<(Seq<u8>, DirectoryEntry)>, i: int) -> Option<
    ForestContradiction,
> {
    let uid = rows[i].1.spec_uid();
    if uid.value == 0 {
        Some(ForestContradiction::UidGap)
    } else if uid.value > rows.len() {
        Some(ForestContradiction::CountMismatch)
    } else if exists|j: int| 0 <= j < i && (#[trigger] rows[j]).1.spec_uid() == uid {
        Some(ForestContradiction::UidGap)
    } else {
        None
    }
}

/// What is wrong with the first wrong entry of the first `count` ones.
pub open spec fn entries_error(rows: Seq<(Seq<u8>, DirectoryEntry)>, count: nat) -> Option<
    ForestContradiction,
>
    decreases count,
{
    if count == 0 {
        None
    } else {
        match entries_error(rows, (count - 1) as nat) {
            Some(error) => Some(error),
            None => entry_error(rows, count - 1),
        }
    }
}

/// Some listed entry is this one.
pub open spec fn has_entry(rows: Seq<(Seq<u8>, DirectoryEntry)>, entry: DirectoryEntry) -> bool {
    exists|j: int| 0 <= j < rows.len() && (#[trigger] rows[j]).1 == entry
}

/// What is wrong with a record's stream.
pub open spec fn record_error(rows: Seq<(Seq<u8>, DirectoryEntry)>, uid: u64) -> Option<
    ForestContradiction,
> {
    if has_entry(rows, DirectoryEntry::Tombstone(StreamUid { value: uid })) {
        Some(ForestContradiction::TombstoneWithRecord)
    } else if has_entry(rows, DirectoryEntry::Live(StreamUid { value: uid })) {
        None
    } else {
        Some(ForestContradiction::RecordWithoutLive)
    }
}

/// What is wrong with the first wrong record of the first `count` ones.
pub open spec fn records_error(
    rows: Seq<(Seq<u8>, DirectoryEntry)>,
    records: Seq<(u64, RecordModel)>,
    count: nat,
) -> Option<ForestContradiction>
    decreases count,
{
    if count == 0 {
        None
    } else {
        match records_error(rows, records, (count - 1) as nat) {
            Some(error) => Some(error),
            None => record_error(rows, records[count - 1].0),
        }
    }
}

/// Why merged rows form no forest, if they form none: entries are looked at in path
/// order, then records in stream order, then live entries for their records.
pub open spec fn merged_error(merged: ForestModel) -> Option<ForestContradiction> {
    let rows = directory_listing(merged.directory);
    let records = ledger_listing(merged.ledger);
    if rows.len() > PARTITION_PATH_OCCUPANCIES_MAX_V2 {
        Some(ForestContradiction::CountMismatch)
    } else if entries_error(rows, rows.len()) is Some {
        entries_error(rows, rows.len())
    } else if records_error(rows, records, records.len()) is Some {
        records_error(rows, records, records.len())
    } else if exists|path: Seq<u8>|
        #![trigger merged.live(path)]
        merged.live(path) matches Some(uid) && !merged.ledger.dom().contains(uid.value) {
        Some(ForestContradiction::LiveWithoutRecord)
    } else {
        None
    }
}

proof fn lemma_no_entries_error(rows: Seq<(Seq<u8>, DirectoryEntry)>, count: nat)
    requires
        count <= rows.len(),
        forall|i: int| 0 <= i < rows.len() ==> (#[trigger] entry_error(rows, i)) is None,
    ensures
        entries_error(rows, count) is None,
    decreases count,
{
    if count > 0 {
        lemma_no_entries_error(rows, (count - 1) as nat);
        assert(entry_error(rows, count - 1) is None);
    }
}

proof fn lemma_no_records_error(
    rows: Seq<(Seq<u8>, DirectoryEntry)>,
    records: Seq<(u64, RecordModel)>,
    count: nat,
)
    requires
        count <= records.len(),
        forall|i: int|
            0 <= i < records.len() ==> record_error(rows, (#[trigger] records[i]).0) is None,
    ensures
        records_error(rows, records, count) is None,
    decreases count,
{
    if count > 0 {
        lemma_no_records_error(rows, records, (count - 1) as nat);
        assert(record_error(rows, records[count - 1].0) is None);
    }
}

/// Merged rows that form a valid forest are accepted.
pub proof fn law_valid_rows_are_accepted(merged: ForestModel)
    requires
        merged.wf(),
    ensures
        merged_error(merged) is None,
{
    let rows = directory_listing(merged.directory);
    let records = ledger_listing(merged.ledger);
    let listed = crate::engine::ordered::lemma_directory_has_listing(merged.directory);
    assert(crate::engine::ordered::directory_lists(rows, merged.directory));
    crate::engine::ordered::lemma_directory_lists_len(rows, merged.directory);
    assert forall|uid: u64| #[trigger] merged.ledger.dom().contains(uid) implies uid
        < merged.path_count() + 1 by {
        let path = choose|path: Seq<u8>| #[trigger]
            merged.live(path) == Some(StreamUid { value: uid });
        assert(merged.directory.dom().contains(path));
    }
    let kept = crate::engine::ordered::lemma_ledger_has_listing(
        merged.ledger,
        merged.path_count() + 1,
    );
    assert(crate::engine::ordered::ledger_lists(records, merged.ledger));
    assert forall|i: int| 0 <= i < rows.len() implies (#[trigger] entry_error(rows, i)) is None by {
        assert(merged.directory.dom().contains(rows[i].0));
        assert forall|j: int| 0 <= j < i implies (#[trigger] rows[j]).1.spec_uid()
            != rows[i].1.spec_uid() by {
            assert(merged.directory.dom().contains(rows[j].0));
            crate::domain::text::lemma_bytes_less_asymmetric(rows[j].0, rows[i].0);
        }
    }
    lemma_no_entries_error(rows, rows.len());
    assert forall|i: int| 0 <= i < records.len() implies record_error(
        rows,
        (#[trigger] records[i]).0,
    ) is None by {
        let uid = StreamUid { value: records[i].0 };
        assert(merged.ledger.dom().contains(uid.value));
        let path = choose|path: Seq<u8>| #[trigger] merged.live(path) == Some(uid);
        assert(merged.directory.dom().contains(path));
        let at = choose|at: int| 0 <= at < rows.len() && (#[trigger] rows[at]).0 == path;
        assert(rows[at].1 == DirectoryEntry::Live(uid));
        if has_entry(rows, DirectoryEntry::Tombstone(uid)) {
            let other = choose|j: int|
                0 <= j < rows.len() && (#[trigger] rows[j]).1 == DirectoryEntry::Tombstone(uid);
            assert(merged.directory.dom().contains(rows[other].0));
            assert(rows[other].0 == path);
        }
    }
    lemma_no_records_error(rows, records, records.len());
}

#[derive(Debug, Clone, Copy, PartialEq, Eq, Structural)]
enum UidState {
    Vacant,
    LiveMissingRecord,
    LiveWithRecord,
    Tombstone,
}

/// What a slot says of the listed entries so far.
spec fn slot_agrees(state: UidState, rows: Seq<(Seq<u8>, DirectoryEntry)>, slot: int) -> bool {
    let uid = StreamUid { value: (slot + 1) as u64 };
    match state {
        UidState::Vacant => forall|j: int|
            0 <= j < rows.len() ==> (#[trigger] rows[j]).1.spec_uid() != uid,
        UidState::Tombstone => has_entry(rows, DirectoryEntry::Tombstone(uid)),
        _ => has_entry(rows, DirectoryEntry::Live(uid)),
    }
}

/// No two listed entries share a uid.
spec fn uids_unique(rows: Seq<(Seq<u8>, DirectoryEntry)>) -> bool {
    forall|i: int, j: int|
        0 <= i < j < rows.len() ==> (#[trigger] rows[i]).1.spec_uid() != (
        #[trigger] rows[j]).1.spec_uid()
}

proof fn lemma_entries_error_first(
    rows: Seq<(Seq<u8>, DirectoryEntry)>,
    first: nat,
    count: nat,
)
    requires
        first < count,
        entries_error(rows, first) is None,
        entry_error(rows, first as int) is Some,
    ensures
        entries_error(rows, count) == entry_error(rows, first as int),
    decreases count,
{
    if first < count - 1 {
        lemma_entries_error_first(rows, first, (count - 1) as nat);
    }
}

proof fn lemma_records_error_first(
    rows: Seq<(Seq<u8>, DirectoryEntry)>,
    records: Seq<(u64, RecordModel)>,
    first: nat,
    count: nat,
)
    requires
        first < count,
        records_error(rows, records, first) is None,
        record_error(rows, records[first as int].0) is Some,
    ensures
        records_error(rows, records, count) == record_error(rows, records[first as int].0),
    decreases count,
{
    if first < count - 1 {
        lemma_records_error_first(rows, records, first, (count - 1) as nat);
    }
}

/// Puts every listed entry into the slot of its uid.
fn place_entries(rows: &Vec<(&[u8], DirectoryEntry)>) -> (states: Result<
    Vec<UidState>,
    ForestContradiction,
>)
    ensures
        ({
            let said = crate::engine::ordered::listed_directory(rows@);
            match states {
                Ok(states) => {
                    &&& entries_error(said, said.len()) is None
                    &&& states@.len() == said.len()
                    &&& uids_unique(said)
                    &&& forall|j: int|
                        0 <= j < said.len() ==> 1 <= (#[trigger] said[j]).1.spec_uid().value
                            <= said.len()
                    &&& forall|s: int|
                        0 <= s < states@.len() ==> (#[trigger] states@[s])
                            != UidState::LiveWithRecord && slot_agrees(states@[s], said, s)
                },
                Err(error) => entries_error(said, said.len()) == Some(error),
            }
        }),
{
    let ghost said = crate::engine::ordered::listed_directory(rows@);
    let count: usize = rows.len();
    let mut states: Vec<UidState> = Vec::new();
    let mut slot: usize = 0;
    while slot < count
        invariant
            slot <= count,
            states@.len() == slot,
            forall|s: int| 0 <= s < slot ==> (#[trigger] states@[s]) == UidState::Vacant,
        decreases count - slot,
    {
        states.push(UidState::Vacant);
        slot += 1;
    }
    let mut i: usize = 0;
    while i < count
        invariant
            i <= count == rows.len(),
            said == crate::engine::ordered::listed_directory(rows@),
            states@.len() == count,
            entries_error(said, i as nat) is None,
            uids_unique(said.take(i as int)),
            forall|j: int|
                0 <= j < i ==> 1 <= (#[trigger] said[j]).1.spec_uid().value <= said.len(),
            forall|s: int|
                0 <= s < states@.len() ==> (#[trigger] states@[s]) != UidState::LiveWithRecord
                    && slot_agrees(states@[s], said.take(i as int), s),
        decreases count - i,
    {
        let entry = rows[i].1;
        let uid: u64 = entry.uid().value;
        let ghost before = said.take(i as int);
        let ghost after = said.take(i + 1);
        assert(said[i as int].1 == entry);
        if uid == 0 {
            proof {
                lemma_entries_error_first(said, i as nat, said.len());
            }
            return Err(ForestContradiction::UidGap);
        }
        if uid > count as u64 {
            proof {
                lemma_entries_error_first(said, i as nat, said.len());
            }
            return Err(ForestContradiction::CountMismatch);
        }
        let index: usize = (uid - 1) as usize;
        if states[index] != UidState::Vacant {
            proof {
                assert(slot_agrees(states@[index as int], before, index as int));
                let found = StreamUid { value: uid };
                if has_entry(before, DirectoryEntry::Tombstone(found)) {
                    let j = choose|j: int|
                        0 <= j < before.len() && (#[trigger] before[j]).1
                            == DirectoryEntry::Tombstone(found);
                    assert(said[j].1.spec_uid() == found);
                } else {
                    let j = choose|j: int|
                        0 <= j < before.len() && (#[trigger] before[j]).1 == DirectoryEntry::Live(
                            found,
                        );
                    assert(said[j].1.spec_uid() == found);
                }
                lemma_entries_error_first(said, i as nat, said.len());
            }
            return Err(ForestContradiction::UidGap);
        }
        let state = match entry {
            DirectoryEntry::Live(_) => UidState::LiveMissingRecord,
            DirectoryEntry::Tombstone(_) => UidState::Tombstone,
        };
        let ghost states_before = states@;
        states.set(index, state);
        proof {
            assert(slot_agrees(states_before[index as int], before, index as int));
            assert forall|j: int| 0 <= j < i implies (#[trigger] said[j]).1.spec_uid()
                != entry.spec_uid() by {
                assert(before[j] == said[j]);
            }
            assert(entry_error(said, i as int) is None);
            assert(after =~= before.push(said[i as int]));
            assert forall|a: int, b: int| 0 <= a < b < after.len() implies (
            #[trigger] after[a]).1.spec_uid() != (#[trigger] after[b]).1.spec_uid() by {
                assert(after[a] == said[a] && after[b] == said[b]);
                if b < i {
                    assert(before[a] == said[a] && before[b] == said[b]);
                }
            }
            assert forall|s: int| 0 <= s < states@.len() implies (#[trigger] states@[s])
                != UidState::LiveWithRecord && slot_agrees(states@[s], after, s) by {
                lemma_slot_step(
                    states_before[s],
                    states@[s],
                    before,
                    said[i as int],
                    s,
                    index as int,
                );
            }
        }
        i += 1;
    }
    assert(said.take(i as int) =~= said);
    Ok(states)
}

proof fn lemma_slot_step(
    old_state: UidState,
    new_state: UidState,
    before: Seq<(Seq<u8>, DirectoryEntry)>,
    row: (Seq<u8>, DirectoryEntry),
    slot: int,
    index: int,
)
    requires
        0 <= slot < u64::MAX,
        0 <= index < u64::MAX,
        row.1.spec_uid().value == index + 1,
        slot_agrees(old_state, before, slot),
        slot != index ==> new_state == old_state,
        slot == index ==> new_state == (match row.1 {
            DirectoryEntry::Live(_) => UidState::LiveMissingRecord,
            DirectoryEntry::Tombstone(_) => UidState::Tombstone,
        }),
    ensures
        slot_agrees(new_state, before.push(row), slot),
{
    let after = before.push(row);
    let uid = StreamUid { value: (slot + 1) as u64 };
    if slot == index {
        assert(after[before.len() as int] == row);
        match row.1 {
            DirectoryEntry::Live(live) => {
                assert(has_entry(after, DirectoryEntry::Live(uid)));
            },
            DirectoryEntry::Tombstone(dead) => {
                assert(has_entry(after, DirectoryEntry::Tombstone(uid)));
            },
        }
    } else {
        match old_state {
            UidState::Vacant => {
                assert forall|j: int| 0 <= j < after.len() implies (#[trigger] after[j]).1.spec_uid()
                    != uid by {
                    if j < before.len() {
                        assert(before[j] == after[j]);
                    }
                }
            },
            UidState::Tombstone => {
                let j = choose|j: int|
                    0 <= j < before.len() && (#[trigger] before[j]).1 == DirectoryEntry::Tombstone(
                        uid,
                    );
                assert(after[j] == before[j]);
            },
            _ => {
                let j = choose|j: int|
                    0 <= j < before.len() && (#[trigger] before[j]).1 == DirectoryEntry::Live(uid);
                assert(after[j] == before[j]);
            },
        }
    }
}

/// With unique uids a slot's state is the only entry of its uid.
proof fn lemma_slot_decides(state: UidState, rows: Seq<(Seq<u8>, DirectoryEntry)>, slot: int)
    requires
        0 <= slot < u64::MAX,
        slot_agrees(state, rows, slot),
        uids_unique(rows),
    ensures
        ({
            let uid = StreamUid { value: (slot + 1) as u64 };
            &&& has_entry(rows, DirectoryEntry::Tombstone(uid)) == (state == UidState::Tombstone)
            &&& has_entry(rows, DirectoryEntry::Live(uid)) == (state != UidState::Tombstone && state
                != UidState::Vacant)
        }),
{
    let uid = StreamUid { value: (slot + 1) as u64 };
    if has_entry(rows, DirectoryEntry::Tombstone(uid)) {
        let j = choose|j: int|
            0 <= j < rows.len() && (#[trigger] rows[j]).1 == DirectoryEntry::Tombstone(uid);
        assert(rows[j].1.spec_uid() == uid);
        if has_entry(rows, DirectoryEntry::Live(uid)) {
            let k = choose|k: int|
                0 <= k < rows.len() && (#[trigger] rows[k]).1 == DirectoryEntry::Live(uid);
            assert(rows[k].1.spec_uid() == uid);
            assert(false);
        }
    }
    if has_entry(rows, DirectoryEntry::Live(uid)) {
        let k = choose|k: int|
            0 <= k < rows.len() && (#[trigger] rows[k]).1 == DirectoryEntry::Live(uid);
        assert(rows[k].1.spec_uid() == uid);
    }
}

impl Forest {
    /// Constructs one all-or-nothing resident forest from newest-wins rows, or
    /// reports the first cross-store contradiction.
    pub fn try_from_merged(directory: DirectoryRows, ledger: LedgerRows) -> (forest: Result<
        Self,
        ForestContradiction,
    >)
        requires
            (ForestModel { directory: directory@, ledger: ledger@ }).fits(),
        ensures
            ({
                let merged = ForestModel { directory: directory@, ledger: ledger@ };
                match forest {
                    Ok(forest) => forest@ == merged && merged_error(merged) is None && forest.wf(),
                    Err(error) => merged_error(merged) == Some(error),
                }
            }),
    {
        let ghost merged = ForestModel { directory: directory@, ledger: ledger@ };
        let rows = directory.list();
        let ghost said = crate::engine::ordered::listed_directory(rows@);
        let records = ledger.list();
        let ghost kept = crate::engine::ordered::listed_ledger(records@);
        proof {
            crate::engine::ordered::lemma_directory_lists_unique(
                said,
                directory_listing(directory@),
                directory@,
            );
            crate::engine::ordered::lemma_ledger_lists_unique(
                kept,
                ledger_listing(ledger@),
                ledger@,
            );
            crate::engine::ordered::lemma_directory_lists_len(said, directory@);
        }
        if rows.len() as u64 > PARTITION_PATH_OCCUPANCIES_MAX_V2 {
            return Err(ForestContradiction::CountMismatch);
        }
        let mut states = match place_entries(&rows) {
            Ok(states) => states,
            Err(error) => {
                return Err(error);
            },
        };
        let mut r: usize = 0;
        while r < records.len()
            invariant
                r <= records.len(),
                kept == crate::engine::ordered::listed_ledger(records@),
                said.len() <= PARTITION_PATH_OCCUPANCIES_MAX_V2,
                states@.len() == said.len(),
                uids_unique(said),
                crate::engine::ordered::ledger_lists(kept, ledger@),
                said == directory_listing(directory@),
                kept == ledger_listing(ledger@),
                entries_error(said, said.len()) is None,
                records_error(said, kept, r as nat) is None,
                forall|s: int|
                    0 <= s < states@.len() ==> slot_agrees(#[trigger] states@[s], said, s),
                forall|s: int|
                    0 <= s < states@.len() && (#[trigger] states@[s]) == UidState::LiveWithRecord
                        ==> ledger@.dom().contains((s + 1) as u64),
                forall|s: int|
                    0 <= s < states@.len() && (#[trigger] states@[s])
                        == UidState::LiveMissingRecord ==> forall|j: int|
                        0 <= j < r ==> (#[trigger] kept[j]).0 != s + 1,
                forall|j: int|
                    0 <= j < said.len() ==> 1 <= (#[trigger] said[j]).1.spec_uid().value
                        <= said.len(),
            decreases records.len() - r,
        {
            let uid: u64 = records[r].0;
            assert(kept[r as int].0 == uid);
            if uid == 0 || uid > states.len() as u64 {
                proof {
                    lemma_no_entry(said, uid);
                    lemma_records_error_first(said, kept, r as nat, kept.len());
                }
                return Err(ForestContradiction::RecordWithoutLive);
            }
            let index: usize = (uid - 1) as usize;
            proof {
                lemma_slot_decides(states@[index as int], said, index as int);
            }
            match states[index] {
                UidState::LiveMissingRecord => {
                    states.set(index, UidState::LiveWithRecord);
                },
                UidState::Tombstone => {
                    proof {
                        lemma_records_error_first(said, kept, r as nat, kept.len());
                    }
                    return Err(ForestContradiction::TombstoneWithRecord);
                },
                UidState::Vacant => {
                    proof {
                        lemma_records_error_first(said, kept, r as nat, kept.len());
                    }
                    return Err(ForestContradiction::RecordWithoutLive);
                },
                UidState::LiveWithRecord => {},
            }
            r += 1;
        }
        let mut s: usize = 0;
        while s < states.len()
            invariant
                s <= states.len(),
                merged.fits(),
                merged == (ForestModel { directory: directory@, ledger: ledger@ }),
                said.len() <= PARTITION_PATH_OCCUPANCIES_MAX_V2,
                states@.len() == said.len(),
                uids_unique(said),
                crate::engine::ordered::directory_lists(said, directory@),
                crate::engine::ordered::ledger_lists(kept, ledger@),
                said == directory_listing(directory@),
                kept == ledger_listing(ledger@),
                entries_error(said, said.len()) is None,
                records_error(said, kept, kept.len()) is None,
                forall|t: int|
                    0 <= t < states@.len() ==> slot_agrees(#[trigger] states@[t], said, t),
                forall|t: int|
                    0 <= t < states@.len() && (#[trigger] states@[t])
                        == UidState::LiveMissingRecord ==> forall|j: int|
                        0 <= j < kept.len() ==> (#[trigger] kept[j]).0 != t + 1,
                forall|t: int|
                    0 <= t < states@.len() && (#[trigger] states@[t]) == UidState::LiveWithRecord
                        ==> ledger@.dom().contains((t + 1) as u64),
                forall|t: int|
                    0 <= t < s ==> (#[trigger] states@[t]) != UidState::LiveMissingRecord,
            decreases states.len() - s,
        {
            if states[s] == UidState::LiveMissingRecord {
                proof {
                    let uid = StreamUid { value: (s + 1) as u64 };
                    assert(slot_agrees(states@[s as int], said, s as int));
                    let j = choose|j: int|
                        0 <= j < said.len() && (#[trigger] said[j]).1 == DirectoryEntry::Live(uid);
                    assert(merged.live(said[j].0) == Some(uid));
                    if ledger@.dom().contains(uid.value) {
                        let k = choose|k: int|
                            0 <= k < kept.len() && (#[trigger] kept[k]).0 == uid.value;
                        assert(false);
                    }
                }
                return Err(ForestContradiction::LiveWithoutRecord);
            }
            s += 1;
        }
        proof {
            lemma_merged_is_valid(merged, said, kept, states@);
        }
        Ok(Forest { directory, ledger })
    }
}

/// A uid outside the row count belongs to no entry.
proof fn lemma_no_entry(rows: Seq<(Seq<u8>, DirectoryEntry)>, uid: u64)
    requires
        forall|j: int|
            0 <= j < rows.len() ==> 1 <= (#[trigger] rows[j]).1.spec_uid().value <= rows.len(),
        uid == 0 || uid > rows.len(),
    ensures
        record_error(rows, uid) == Some(ForestContradiction::RecordWithoutLive),
{
    if has_entry(rows, DirectoryEntry::Tombstone(StreamUid { value: uid })) {
        let j = choose|j: int|
            0 <= j < rows.len() && (#[trigger] rows[j]).1 == DirectoryEntry::Tombstone(
                StreamUid { value: uid },
            );
        assert(rows[j].1.spec_uid().value == uid);
    }
    if has_entry(rows, DirectoryEntry::Live(StreamUid { value: uid })) {
        let j = choose|j: int|
            0 <= j < rows.len() && (#[trigger] rows[j]).1 == DirectoryEntry::Live(
                StreamUid { value: uid },
            );
        assert(rows[j].1.spec_uid().value == uid);
    }
}

proof fn lemma_records_error_none(
    rows: Seq<(Seq<u8>, DirectoryEntry)>,
    records: Seq<(u64, RecordModel)>,
    count: nat,
    i: int,
)
    requires
        records_error(rows, records, count) is None,
        0 <= i < count,
    ensures
        record_error(rows, records[i].0) is None,
    decreases count,
{
    if i < count - 1 {
        lemma_records_error_none(rows, records, (count - 1) as nat, i);
    }
}

proof fn lemma_entries_error_none(rows: Seq<(Seq<u8>, DirectoryEntry)>, count: nat, i: int)
    requires
        entries_error(rows, count) is None,
        0 <= i < count,
    ensures
        entry_error(rows, i) is None,
    decreases count,
{
    if i < count - 1 {
        lemma_entries_error_none(rows, (count - 1) as nat, i);
    }
}

proof fn lemma_merged_is_valid(
    merged: ForestModel,
    rows: Seq<(Seq<u8>, DirectoryEntry)>,
    records: Seq<(u64, RecordModel)>,
    states: Seq<UidState>,
)
    requires
        merged.fits(),
        rows.len() <= PARTITION_PATH_OCCUPANCIES_MAX_V2,
        crate::engine::ordered::directory_lists(rows, merged.directory),
        crate::engine::ordered::ledger_lists(records, merged.ledger),
        rows == directory_listing(merged.directory),
        records == ledger_listing(merged.ledger),
        entries_error(rows, rows.len()) is None,
        records_error(rows, records, records.len()) is None,
        uids_unique(rows),
        states.len() == rows.len(),
        forall|t: int| 0 <= t < states.len() ==> slot_agrees(#[trigger] states[t], rows, t),
        forall|t: int| 0 <= t < states.len() ==> (#[trigger] states[t]) != UidState::LiveMissingRecord,
        forall|t: int|
            0 <= t < states.len() && (#[trigger] states[t]) == UidState::LiveWithRecord
                ==> merged.ledger.dom().contains((t + 1) as u64),
    ensures
        merged_error(merged) is None,
        merged.wf(),
{
    crate::engine::ordered::lemma_directory_lists_len(rows, merged.directory);
    assert forall|path: Seq<u8>| #[trigger] merged.directory.dom().contains(path) implies exists|
        i: int,
    | 0 <= i < rows.len() && #[trigger] rows[i] == (path, merged.directory[path]) by {
        let i = choose|i: int| 0 <= i < rows.len() && (#[trigger] rows[i]).0 == path;
        assert(rows[i] == (path, merged.directory[path]));
    }
    assert forall|path: Seq<u8>| #[trigger] merged.directory.dom().contains(path) implies 1
        <= merged.directory[path].spec_uid().value <= merged.path_count() by {
        let i = choose|i: int|
            0 <= i < rows.len() && #[trigger] rows[i] == (path, merged.directory[path]);
        lemma_entries_error_none(rows, rows.len(), i);
    }
    assert forall|left: Seq<u8>, right: Seq<u8>|
        #![trigger merged.directory.dom().contains(left), merged.directory.dom().contains(right)]
        merged.directory.dom().contains(left) && merged.directory.dom().contains(right)
            && merged.directory[left].spec_uid() == merged.directory[right].spec_uid() implies left
        == right by {
        let i = choose|i: int|
            0 <= i < rows.len() && #[trigger] rows[i] == (left, merged.directory[left]);
        let j = choose|j: int|
            0 <= j < rows.len() && #[trigger] rows[j] == (right, merged.directory[right]);
        assert(i == j);
    }
    assert forall|path: Seq<u8>| #![trigger merged.live(path)] merged.live(path) matches Some(
        uid,
    ) ==> merged.ledger.dom().contains(uid.value) by {
        if let Some(uid) = merged.live(path) {
            assert(merged.directory.dom().contains(path));
            let i = choose|i: int|
                0 <= i < rows.len() && #[trigger] rows[i] == (path, merged.directory[path]);
            lemma_entries_error_none(rows, rows.len(), i);
            let t = uid.value - 1;
            assert(has_entry(rows, DirectoryEntry::Live(uid)));
            lemma_slot_decides(states[t], rows, t);
            assert(states[t] == UidState::LiveWithRecord);
        }
    }
    assert forall|uid: u64| #[trigger] merged.ledger.dom().contains(uid) implies exists|
        path: Seq<u8>,
    | #[trigger] merged.live(path) == Some(StreamUid { value: uid }) by {
        let k = choose|k: int| 0 <= k < records.len() && (#[trigger] records[k]).0 == uid;
        lemma_records_error_none(rows, records, records.len(), k);
        assert(has_entry(rows, DirectoryEntry::Live(StreamUid { value: uid })));
        let j = choose|j: int|
            0 <= j < rows.len() && (#[trigger] rows[j]).1 == DirectoryEntry::Live(
                StreamUid { value: uid },
            );
        assert(merged.live(rows[j].0) == Some(StreamUid { value: uid }));
    }
}

} // verus!
