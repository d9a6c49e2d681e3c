//! Checked archive codec for permanent Seals.

use vstd::prelude::*;

use crate::domain::archive::{
    decode_bound, read_seal_archive, write_seal_archive, DecodeError, EncodeError, RawSeal, RawTable,
    SealArchive,
};
use crate::domain::bounds::{RUN_TABLES_MAX, SEAL_ENCODED_BYTES_MAX, TREE_RUNS_MAX};
use crate::domain::coordinate::{BatchId, OwnerToken, SealGeneration};
use crate::domain::partition::PartitionId;
use crate::domain::seal::{
    Seal, SealIdentity, SealModel, SortedRun, TableRef, TreeVersion, WalReplayPoint,
};
use crate::domain::table::{AttemptId, FreshIdentity, StoreKind, TableObjectId};

verus! {

/// The archived number of a store.
pub open spec fn store_tag(store: StoreKind) -> u8 {
    match store {
        StoreKind::Directory => 0,
        StoreKind::Ledger => 1,
        StoreKind::Tally => 2,
        StoreKind::Annals => 3,
    }
}

/// The store of an archived number.
pub open spec fn tagged_store(tag: u8) -> StoreKind {
    if tag == 0 {
        StoreKind::Directory
    } else if tag == 1 {
        StoreKind::Ledger
    } else if tag == 2 {
        StoreKind::Tally
    } else {
        StoreKind::Annals
    }
}

pub open spec fn table_archive(table: TableRef) -> RawTable {
    let fresh = table.object.fresh;
    (
        fresh.birth_generation.value,
        fresh.attempt.owner_claim.value,
        fresh.attempt.local_counter,
        fresh.ordinal,
        store_tag(table.object.store),
        table.object_bytes,
    )
}

pub open spec fn archived_table(raw: RawTable) -> TableRef {
    TableRef {
        object: TableObjectId {
            fresh: FreshIdentity {
                birth_generation: SealGeneration { value: raw.0 },
                attempt: AttemptId {
                    owner_claim: SealGeneration { value: raw.1 },
                    local_counter: raw.2,
                },
                ordinal: raw.3,
            },
            store: tagged_store(raw.4),
        },
        object_bytes: raw.5,
    }
}

/// Coordinates and lengths are nonzero and the store number names a store.
pub open spec fn table_structured(raw: RawTable) -> bool {
    raw.0 != 0 && raw.1 != 0 && raw.4 <= 3 && raw.5 != 0
}

pub open spec fn run_archive(run: Seq<TableRef>) -> Seq<RawTable> {
    run.map(|_i: int, table: TableRef| table_archive(table))
}

pub open spec fn archived_run(raw: Seq<RawTable>) -> Seq<TableRef> {
    raw.map(|_i: int, table: RawTable| archived_table(table))
}

pub open spec fn run_structured(raw: Seq<RawTable>) -> bool {
    forall|t: int| 0 <= t < raw.len() ==> table_structured(#[trigger] raw[t])
}

pub open spec fn tree_archive(tree: Seq<Seq<TableRef>>) -> Seq<Seq<RawTable>> {
    tree.map(|_i: int, run: Seq<TableRef>| run_archive(run))
}

pub open spec fn archived_tree(raw: Seq<Seq<RawTable>>) -> Seq<Seq<TableRef>> {
    raw.map(|_i: int, run: Seq<RawTable>| archived_run(run))
}

pub open spec fn tree_structured(raw: Seq<Seq<RawTable>>) -> bool {
    forall|r: int| 0 <= r < raw.len() ==> run_structured(#[trigger] raw[r])
}

pub open spec fn replay_archive(replay: WalReplayPoint) -> (u8, u64, u64) {
    match replay {
        WalReplayPoint::Genesis => (0, 0, 0),
        WalReplayPoint::Through { batch, owner } => (1, batch.value, owner.generation.value),
    }
}

pub open spec fn archived_replay(raw: (u8, u64, u64)) -> WalReplayPoint {
    if raw.0 == 0 {
        WalReplayPoint::Genesis
    } else {
        WalReplayPoint::Through {
            batch: BatchId { value: raw.1 },
            owner: OwnerToken { generation: SealGeneration { value: raw.2 } },
        }
    }
}

/// A replay point is genesis or names a nonzero batch and owner.
pub open spec fn replay_structured(raw: (u8, u64, u64)) -> bool {
    raw.0 == 0 || (raw.0 == 1 && raw.1 != 0 && raw.2 != 0)
}

/// The plain values that a Seal is archived as.
pub open spec fn seal_archive(seal: SealModel) -> SealArchive {
    (
        seal.partition.octets@,
        seal.generation.value,
        replay_archive(seal.replay),
        tree_archive(seal.directory),
        tree_archive(seal.ledger),
    )
}

/// What archived plain values say, checked or not.
pub open spec fn archived_seal(partition: PartitionId, raw: SealArchive) -> SealModel {
    SealModel {
        partition,
        generation: SealGeneration { value: raw.1 },
        replay: archived_replay(raw.2),
        directory: archived_tree(raw.3),
        ledger: archived_tree(raw.4),
    }
}

/// Reserved zeros and unknown variants are structural faults.
pub open spec fn seal_structured(raw: SealArchive) -> bool {
    &&& raw.1 != 0
    &&& replay_structured(raw.2)
    &&& tree_structured(raw.3)
    &&& tree_structured(raw.4)
}

/// The Seal that bytes at a durable location hold.
///
/// The complete length is checked first, then the archive's structure, then the
/// partition, then the location, and last what the Seal says.
pub open spec fn spec_decode_seal(identity: SealIdentity, bytes: Seq<u8>) -> Result<
    SealModel,
    DecodeError,
> {
    if bytes.len() > SEAL_ENCODED_BYTES_MAX {
        Err(
            DecodeError::EncodedBytesOverMax {
                bytes_max: SEAL_ENCODED_BYTES_MAX,
                bytes_actual: bytes.len() as usize,
            },
        )
    } else {
        match crate::domain::archive::seal_archive_value(bytes) {
            None => Err(DecodeError::MalformedArchive),
            Some(raw) => spec_decode_archived_seal(identity, raw),
        }
    }
}

/// The Seal that archived plain values at a durable location say.
pub open spec fn spec_decode_archived_seal(identity: SealIdentity, raw: SealArchive) -> Result<
    SealModel,
    DecodeError,
> {
    if !seal_structured(raw) {
        Err(DecodeError::MalformedArchive)
    } else if raw.0 == seq![0u8; 16] {
        Err(DecodeError::InvalidBody)
    } else if raw.0 != identity.partition.octets@ || raw.1 != identity.generation.value {
        Err(DecodeError::IdentityMismatch)
    } else {
        let seal = archived_seal(identity.partition, raw);
        if seal.wf() {
            Ok(seal)
        } else {
            Err(DecodeError::InvalidBody)
        }
    }
}

/// The bytes that a Seal is archived in: a fixed frame, one for each run and one for
/// each table.
pub open spec fn seal_estimate(seal: SealModel) -> nat {
    57 + 8 * (seal.directory.len() + seal.ledger.len()) + 37 * seal.tables().len()
}

proof fn lemma_tree_room(tree: Seq<Seq<TableRef>>)
    ensures
        crate::domain::archive::tree_room(tree_archive(tree)) == 8 * tree.len() + 37
            * crate::domain::seal::tree_tables(tree).len(),
    decreases tree.len(),
{
    if tree.len() > 0 {
        lemma_tree_room(tree.drop_last());
        assert(tree_archive(tree).drop_last() =~= tree_archive(tree.drop_last()));
        assert(tree_archive(tree).last() == run_archive(tree.last()));
    }
}

/// Fails when the complete archive exceeds the Seal bound.
pub fn encode_seal(seal: &Seal) -> (encoded: Result<Vec<u8>, EncodeError>)
    ensures
        seal_estimate(seal@) <= SEAL_ENCODED_BYTES_MAX ==> encoded is Ok,
        encoded matches Ok(bytes) ==> bytes@.len() <= seal_estimate(seal@),
        match encoded {
            Ok(bytes) => {
                &&& bytes@ == crate::domain::archive::seal_archive_bytes(seal_archive(seal@))
                &&& 0 < bytes@.len() <= SEAL_ENCODED_BYTES_MAX
                &&& crate::domain::archive::seal_archive_value(bytes@) == Some(seal_archive(seal@))
            },
            Err(error) => {
                &&& error == (EncodeError::EncodedBytesOverMax { bytes_max: SEAL_ENCODED_BYTES_MAX })
                &&& crate::domain::archive::seal_archive_bytes(seal_archive(seal@)).len()
                    > SEAL_ENCODED_BYTES_MAX
            },
        },
{
    let replay = match seal.replay {
        WalReplayPoint::Genesis => (0u8, 0u64, 0u64),
        WalReplayPoint::Through { batch, owner } => (1u8, batch.value, owner.generation.value),
    };
    let raw: RawSeal = (
        seal.partition.octets,
        seal.generation.value,
        replay,
        encode_tree(&seal.directory),
        encode_tree(&seal.ledger),
    );
    proof {
        assert(raw.0.deep_view() =~= seal.partition.octets@);
        assert(raw.deep_view() == seal_archive(seal@));
        lemma_tree_room(seal@.directory);
        lemma_tree_room(seal@.ledger);
    }
    match write_seal_archive(&raw, SEAL_ENCODED_BYTES_MAX) {
        Some(bytes) => Ok(bytes),
        None => Err(EncodeError::EncodedBytesOverMax { bytes_max: SEAL_ENCODED_BYTES_MAX }),
    }
}

fn encode_tree(tree: &TreeVersion) -> (raw: Vec<Vec<RawTable>>)
    ensures
        raw.deep_view() == tree_archive(tree@),
{
    let mut raw: Vec<Vec<RawTable>> = Vec::new();
    let mut r: usize = 0;
    while r < tree.runs.len()
        invariant
            r <= tree.runs.len(),
            raw@.len() == r,
            forall|i: int|
                0 <= i < r ==> (#[trigger] raw@[i]).deep_view() == run_archive(tree.runs@[i]@),
        decreases tree.runs.len() - r,
    {
        raw.push(encode_run(&tree.runs[r]));
        r += 1;
    }
    assert(raw.deep_view() =~= tree_archive(tree@));
    raw
}

fn encode_run(run: &SortedRun) -> (raw: Vec<RawTable>)
    ensures
        raw.deep_view() == run_archive(run@),
{
    let mut raw: Vec<RawTable> = Vec::new();
    let mut t: usize = 0;
    while t < run.tables.len()
        invariant
            t <= run.tables.len(),
            raw@.len() == t,
            forall|i: int| 0 <= i < t ==> #[trigger] raw@[i] == table_archive(run@[i]),
        decreases run.tables.len() - t,
    {
        let table: TableRef = run.tables[t];
        let fresh = table.object.fresh;
        let store: u8 = match table.object.store {
            StoreKind::Directory => 0,
            StoreKind::Ledger => 1,
            StoreKind::Tally => 2,
            StoreKind::Annals => 3,
        };
        raw.push(
            (
                fresh.birth_generation.value,
                fresh.attempt.owner_claim.value,
                fresh.attempt.local_counter,
                fresh.ordinal,
                store,
                table.object_bytes,
            ),
        );
        t += 1;
    }
    assert(raw.deep_view() =~= run_archive(run@));
    raw
}

/// Reads the Seal at a durable location.
pub fn decode_seal(identity: &SealIdentity, bytes: &[u8]) -> (seal: Result<Seal, DecodeError>)
    ensures
        match seal {
            Ok(seal) => spec_decode_seal(*identity, bytes@) == Ok::<SealModel, DecodeError>(seal@)
                && seal.wf(),
            Err(error) => spec_decode_seal(*identity, bytes@) == Err::<SealModel, DecodeError>(error),
        },
{
    match decode_bound(bytes, SEAL_ENCODED_BYTES_MAX) {
        Ok(()) => {},
        Err(error) => {
            return Err(DecodeError::from(error));
        },
    }
    match read_seal_archive(bytes) {
        None => Err(DecodeError::MalformedArchive),
        Some(raw) => decode_archived_seal(identity, &raw),
    }
}

/// The octets of the partition that a Seal's bytes name.
pub open spec fn spec_seal_partition(bytes: Seq<u8>) -> Result<Seq<u8>, DecodeError> {
    if bytes.len() > SEAL_ENCODED_BYTES_MAX {
        Err(
            DecodeError::EncodedBytesOverMax {
                bytes_max: SEAL_ENCODED_BYTES_MAX,
                bytes_actual: bytes.len() as usize,
            },
        )
    } else {
        match crate::domain::archive::seal_archive_value(bytes) {
            None => Err(DecodeError::MalformedArchive),
            Some(raw) => if raw.0 == seq![0u8; 16] {
                Err(DecodeError::InvalidBody)
            } else {
                Ok(raw.0)
            },
        }
    }
}

/// Reads the partition that a Seal names, before the Seal itself can be checked against
/// its location.
pub fn decode_seal_partition(bytes: &[u8]) -> (partition: Result<PartitionId, DecodeError>)
    ensures
        match partition {
            Ok(partition) => spec_seal_partition(bytes@) == Ok::<_, DecodeError>(
                partition.octets@,
            ) && partition.wf(),
            Err(error) => spec_seal_partition(bytes@) == Err::<Seq<u8>, _>(error),
        },
{
    match decode_bound(bytes, SEAL_ENCODED_BYTES_MAX) {
        Ok(()) => {},
        Err(error) => {
            return Err(DecodeError::from(error));
        },
    }
    match read_seal_archive(bytes) {
        None => Err(DecodeError::MalformedArchive),
        Some(raw) => {
            assert(raw.deep_view().0 =~= raw.0@);
            match PartitionId::try_from(raw.0) {
                Ok(partition) => Ok(partition),
                Err(_nil) => Err(DecodeError::InvalidBody),
            }
        },
    }
}

/// A Seal that reads back at a location names that location's partition.
pub proof fn law_seals_name_their_partition(identity: SealIdentity, bytes: Seq<u8>)
    requires
        spec_decode_seal(identity, bytes) is Ok,
    ensures
        spec_seal_partition(bytes) == Ok::<_, DecodeError>(identity.partition.octets@),
{
}

/// Checks archived plain values against their durable location.
pub fn decode_archived_seal(identity: &SealIdentity, raw: &RawSeal) -> (seal: Result<
    Seal,
    DecodeError,
>)
    ensures
        match seal {
            Ok(seal) => spec_decode_archived_seal(*identity, raw.deep_view()) == Ok::<
                SealModel,
                DecodeError,
            >(seal@) && seal.wf(),
            Err(error) => spec_decode_archived_seal(*identity, raw.deep_view()) == Err::<
                SealModel,
                DecodeError,
            >(error),
        },
{
    let ghost value = raw.deep_view();
    assert(value.0 =~= raw.0@);
    if raw.1 == 0 || !is_replay_structured(raw.2) || !is_tree_structured(&raw.3)
        || !is_tree_structured(&raw.4) {
        return Err(DecodeError::MalformedArchive);
    }
    let partition = match PartitionId::try_from(raw.0) {
        Ok(partition) => partition,
        Err(_nil) => {
            return Err(DecodeError::InvalidBody);
        },
    };
    let generation = SealGeneration { value: raw.1 };
    let found = SealIdentity { partition, generation };
    if !found.is_same(identity) {
        proof {
            assert(partition.octets@ == identity.partition.octets@ ==> partition.octets
                == identity.partition.octets);
        }
        return Err(DecodeError::IdentityMismatch);
    }
    let replay = if raw.2.0 == 0 {
        WalReplayPoint::Genesis
    } else {
        WalReplayPoint::Through {
            batch: BatchId { value: raw.2.1 },
            owner: OwnerToken { generation: SealGeneration { value: raw.2.2 } },
        }
    };
    let directory = match decode_tree(&raw.3) {
        Some(tree) => tree,
        None => {
            return Err(DecodeError::InvalidBody);
        },
    };
    let ledger = match decode_tree(&raw.4) {
        Some(tree) => tree,
        None => {
            return Err(DecodeError::InvalidBody);
        },
    };
    match Seal::new(partition, generation, replay, directory, ledger) {
        Ok(seal) => Ok(seal),
        Err(_error) => Err(DecodeError::InvalidBody),
    }
}

fn is_replay_structured(raw: (u8, u64, u64)) -> (structured: bool)
    ensures
        structured == replay_structured(raw),
{
    raw.0 == 0 || (raw.0 == 1 && raw.1 != 0 && raw.2 != 0)
}

fn is_tree_structured(raw: &Vec<Vec<RawTable>>) -> (structured: bool)
    ensures
        structured == tree_structured(raw.deep_view()),
{
    let ghost value = raw.deep_view();
    let mut r: usize = 0;
    while r < raw.len()
        invariant
            r <= raw.len(),
            value == raw.deep_view(),
            forall|i: int| 0 <= i < r ==> run_structured(#[trigger] value[i]),
        decreases raw.len() - r,
    {
        let run: &Vec<RawTable> = &raw[r];
        assert(value[r as int] == run.deep_view());
        let mut t: usize = 0;
        while t < run.len()
            invariant
                t <= run.len(),
                r < raw.len(),
                value == raw.deep_view(),
                value[r as int] == run.deep_view(),
                forall|i: int| 0 <= i < t ==> table_structured(#[trigger] run.deep_view()[i]),
            decreases run.len() - t,
        {
            let table: RawTable = run[t];
            assert(run.deep_view()[t as int] == table);
            if table.0 == 0 || table.1 == 0 || table.4 > 3 || table.5 == 0 {
                assert(!table_structured(run.deep_view()[t as int]));
                assert(!run_structured(value[r as int]));
                return false;
            }
            t += 1;
        }
        r += 1;
    }
    true
}

fn decode_tree(raw: &Vec<Vec<RawTable>>) -> (tree: Option<TreeVersion>)
    requires
        tree_structured(raw.deep_view()),
    ensures
        tree is Some == crate::domain::seal::tree_wf(archived_tree(raw.deep_view())),
        tree matches Some(tree) ==> tree@ == archived_tree(raw.deep_view()),
{
    let ghost value = archived_tree(raw.deep_view());
    if raw.len() > TREE_RUNS_MAX {
        return None;
    }
    let mut runs: Vec<SortedRun> = Vec::new();
    let mut r: usize = 0;
    while r < raw.len()
        invariant
            r <= raw.len() <= TREE_RUNS_MAX,
            tree_structured(raw.deep_view()),
            value == archived_tree(raw.deep_view()),
            runs@.len() == r,
            forall|i: int|
                #![trigger runs@[i]]
                #![trigger value[i]]
                0 <= i < r ==> runs@[i]@ == value[i] && crate::domain::seal::run_wf(value[i]),
        decreases raw.len() - r,
    {
        assert(run_structured(raw.deep_view()[r as int]));
        match decode_run(&raw[r]) {
            Some(run) => {
                runs.push(run);
            },
            None => {
                assert(!crate::domain::seal::run_wf(value[r as int]));
                return None;
            },
        }
        r += 1;
    }
    let tree = TreeVersion { runs };
    assert(tree@ =~= value);
    Some(tree)
}

fn decode_run(raw: &Vec<RawTable>) -> (run: Option<SortedRun>)
    requires
        run_structured(raw.deep_view()),
    ensures
        run is Some == crate::domain::seal::run_wf(archived_run(raw.deep_view())),
        run matches Some(run) ==> run@ == archived_run(raw.deep_view()),
{
    let ghost value = archived_run(raw.deep_view());
    if raw.len() == 0 || raw.len() > RUN_TABLES_MAX {
        return None;
    }
    let mut tables: Vec<TableRef> = Vec::new();
    let mut t: usize = 0;
    while t < raw.len()
        invariant
            t <= raw.len(),
            run_structured(raw.deep_view()),
            value == archived_run(raw.deep_view()),
            tables@.len() == t,
            forall|i: int|
                #![trigger tables@[i]]
                #![trigger value[i]]
                0 <= i < t ==> tables@[i] == value[i] && value[i].wf(),
        decreases raw.len() - t,
    {
        assert(table_structured(raw.deep_view()[t as int]));
        match decode_table_ref(raw[t]) {
            Some(table) => {
                tables.push(table);
            },
            None => {
                assert(!value[t as int].wf());
                return None;
            },
        }
        t += 1;
    }
    assert(tables@ =~= value);
    Some(SortedRun { tables })
}

fn decode_table_ref(raw: RawTable) -> (table: Option<TableRef>)
    requires
        table_structured(raw),
    ensures
        table is Some == archived_table(raw).wf(),
        table matches Some(table) ==> table == archived_table(raw),
{
    let store = if raw.4 == 0 {
        StoreKind::Directory
    } else if raw.4 == 1 {
        StoreKind::Ledger
    } else if raw.4 == 2 {
        StoreKind::Tally
    } else {
        StoreKind::Annals
    };
    let attempt = AttemptId::new(SealGeneration { value: raw.1 }, raw.2);
    match FreshIdentity::new(SealGeneration { value: raw.0 }, attempt, raw.3) {
        Ok(fresh) => match TableRef::new(TableObjectId::new(fresh, store), raw.5) {
            Ok(table) => Some(table),
            Err(_over) => None,
        },
        Err(_order) => None,
    }
}

/// What a valid Seal is archived as is structured and says that Seal.
proof fn lemma_seal_archive(seal: SealModel)
    requires
        seal.wf(),
    ensures
        seal_structured(seal_archive(seal)),
        archived_seal(seal.partition, seal_archive(seal)) == seal,
{
    lemma_tree_archive(seal.directory);
    lemma_tree_archive(seal.ledger);
}

proof fn lemma_tree_archive(tree: Seq<Seq<TableRef>>)
    requires
        crate::domain::seal::tree_wf(tree),
    ensures
        tree_structured(tree_archive(tree)),
        archived_tree(tree_archive(tree)) == tree,
{
    let raw = tree_archive(tree);
    assert forall|r: int| 0 <= r < raw.len() implies run_structured(#[trigger] raw[r])
        && archived_run(raw[r]) == tree[r] by {
        assert(crate::domain::seal::run_wf(tree[r]));
        assert forall|t: int| 0 <= t < raw[r].len() implies table_structured(#[trigger] raw[r][t])
            && archived_table(raw[r][t]) == tree[r][t] by {
            assert(tree[r][t].wf());
        }
        assert(archived_run(raw[r]) =~= tree[r]);
    }
    assert(archived_tree(raw) =~= tree);
}

/// Reading the bytes that a valid Seal was encoded as, at that Seal's own
/// location, gives the Seal back.
///
/// The premise on `bytes` is what [`encode_seal`] ensures of the bytes it returns.
pub proof fn law_seal_round_trips(seal: SealModel, bytes: Seq<u8>)
    requires
        seal.wf(),
        bytes.len() <= SEAL_ENCODED_BYTES_MAX,
        crate::domain::archive::seal_archive_value(bytes) == Some(seal_archive(seal)),
    ensures
        spec_decode_seal(seal.identity(), bytes) == Ok::<SealModel, DecodeError>(seal),
{
    lemma_seal_archive(seal);
}

} // verus!
