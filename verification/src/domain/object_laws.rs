//! What stored objects hold, said of their parts: which numbers stand for what, and which
//! bytes are read back.

use vstd::prelude::*;

use crate::domain::archive::DecodeError;
use crate::domain::coordinate::{BatchId, StreamUid};
use crate::domain::directory::DirectoryEntry;
use crate::domain::envelope::ObjectKind;
use crate::domain::ledger::{LedgerCell, RecordModel};
use crate::domain::protocol::{ExpiryPolicy, ProtocolText, StreamLifecycle};
use crate::domain::seal::{
    Seal, SealError, SealIdentity, SealModel, SortedRun, TableRef, TreeVersion, WalReplayPoint,
};
use crate::domain::seal_codec::decode_seal;
use crate::domain::spelling::TableKey;
use crate::domain::sst::SstDecodeError;
use crate::domain::table::{AttemptId, FreshIdentity, StoreKind, TableIdentityError, TableObjectId};
use crate::domain::wal::{FactModel, OperationFact, WalIdentity, WalModel, WalObject};

verus! {

// What values say

/// A fact says its own fields.
pub proof fn law_facts_say_their_fields(fact: OperationFact)
    ensures
        match fact {
            OperationFact::StreamCreated { path, uid, content_type, expiry, lifecycle } => fact@
                == (FactModel::StreamCreated {
                path: path.bytes@,
                uid,
                content_type: content_type.text@,
                expiry,
                lifecycle,
            }),
            OperationFact::StreamClosed { path, uid } => fact@ == (FactModel::StreamClosed {
                path: path.bytes@,
                uid,
            }),
            OperationFact::StreamDeleted { path, uid } => fact@ == (FactModel::StreamDeleted {
                path: path.bytes@,
                uid,
            }),
        },
{
}

/// A log object says its own place, owner and facts; only a RUN has facts.
pub proof fn law_log_objects_say_their_fields(object: WalObject)
    ensures
        match object {
            WalObject::Run(run) => {
                &&& object@.partition == run.partition
                &&& object@.batch == run.batch
                &&& object@.owner == run.owner
                &&& object@.facts matches Some(facts) && facts.len() == run.facts.values@.len()
                    && forall|i: int|
                    0 <= i < facts.len() ==> #[trigger] facts[i] == run.facts.values@[i]@
            },
            WalObject::Fence(fence) => {
                &&& object@.partition == fence.partition
                &&& object@.batch == fence.batch
                &&& object@.owner == fence.owner
                &&& object@.facts is None
            },
        },
{
}

/// A Ledger cell says its record, or that there is none.
pub proof fn law_cells_say_their_record(cell: LedgerCell)
    ensures
        match cell {
            LedgerCell::Value(record) => cell@ matches Some(said) && said.content_type
                == record.content_type.text@ && said.expiry == record.expiry && said.lifecycle
                == record.lifecycle && said.created_at == record.created_at,
            LedgerCell::Delete => cell@ is None,
        },
{
}

/// What a valid fact is: a stream that is not zero, a path of at most five hundred and
/// twelve bytes of UTF-8, and for a created stream a content type of at most two hundred
/// and fifty-six bytes and no zero time to live.
pub proof fn law_valid_facts_are_bounded(fact: FactModel)
    ensures
        match fact {
            FactModel::StreamCreated { path, uid, content_type, expiry, .. } => fact.wf() <==> {
                &&& uid.value != 0
                &&& path.len() <= 512
                &&& vstd::utf8::valid_utf8(path)
                &&& vstd::utf8::encode_utf8(content_type).len() <= 256
                &&& expiry matches ExpiryPolicy::SlidingTtl(ttl) ==> ttl.seconds != 0
            },
            FactModel::StreamClosed { path, uid } => fact.wf() <==> uid.value != 0 && path.len()
                <= 512 && vstd::utf8::valid_utf8(path),
            FactModel::StreamDeleted { path, uid } => fact.wf() <==> uid.value != 0 && path.len()
                <= 512 && vstd::utf8::valid_utf8(path),
        },
{
}

/// A valid log object is of a partition, a coordinate and an owner that are not zero, and
/// a RUN has one to four thousand and ninety-six valid facts.
pub proof fn law_valid_log_objects(object: WalModel)
    ensures
        object.wf() <==> {
            &&& object.partition.octets@ != seq![0u8; 16]
            &&& object.batch.value != 0
            &&& object.owner.generation.value != 0
            &&& object.facts matches Some(facts) ==> {
                &&& 1 <= facts.len() <= 4096
                &&& forall|i: int| 0 <= i < facts.len() ==> (#[trigger] facts[i]).wf()
            }
        },
{
}

/// The account of facts: a hundred and twenty-eight bytes and its texts for each.
pub proof fn law_estimates_add_up(first: Seq<FactModel>, second: Seq<FactModel>, fact: FactModel)
    ensures
        crate::domain::wal::facts_estimate(Seq::empty()) == 0,
        crate::domain::wal::facts_estimate(first.push(fact)) == crate::domain::wal::facts_estimate(
            first,
        ) + 128 + match fact {
            FactModel::StreamCreated { path, content_type, .. } => path.len()
                + vstd::utf8::encode_utf8(content_type).len(),
            FactModel::StreamClosed { path, .. } => path.len(),
            FactModel::StreamDeleted { path, .. } => path.len(),
        },
        crate::domain::wal::facts_estimate(first + second) == crate::domain::wal::facts_estimate(
            first,
        ) + crate::domain::wal::facts_estimate(second),
    decreases second.len(),
{
    assert(first.push(fact).drop_last() =~= first);
    if second.len() == 0 {
        assert(first + second =~= first);
    } else {
        law_estimates_add_up(first, second.drop_last(), fact);
        assert((first + second).drop_last() =~= first + second.drop_last());
    }
}

// Seals

/// A table is right in a tree exactly when it is of the tree's store and not born after
/// the Seal.
pub open spec fn fits_tree(table: TableRef, store: StoreKind, generation: u64) -> bool {
    table.object.store == store && table.object.fresh.birth_generation.value <= generation
}

proof fn lemma_right_tables(tables: Seq<TableRef>, store: StoreKind, seal: SealModel)
    ensures
        crate::domain::seal::tables_error(tables, store, seal.generation) is None <==> (forall|
            i: int,
        |
            0 <= i < tables.len() ==> fits_tree(
                #[trigger] tables[i],
                store,
                seal.generation.value,
            )),
    decreases tables.len(),
{
    if tables.len() > 0 {
        let fewer = tables.drop_last();
        lemma_right_tables(fewer, store, seal);
        if forall|i: int|
            0 <= i < tables.len() ==> fits_tree(#[trigger] tables[i], store, seal.generation.value) {
            assert forall|i: int| 0 <= i < fewer.len() implies fits_tree(
                #[trigger] fewer[i],
                store,
                seal.generation.value,
            ) by {
                assert(fewer[i] == tables[i]);
            }
            assert(fits_tree(tables[tables.len() - 1], store, seal.generation.value));
        }
        if crate::domain::seal::tables_error(tables, store, seal.generation) is None {
            assert forall|i: int| 0 <= i < tables.len() implies fits_tree(
                #[trigger] tables[i],
                store,
                seal.generation.value,
            ) by {
                if i < fewer.len() {
                    assert(fits_tree(fewer[i], store, seal.generation.value));
                }
            }
        }
    }
}

/// Parts form a Seal exactly when the first generation is the empty genesis, the owner of
/// the cut is older than the Seal, every Directory and Ledger table is of its own store
/// and born no later than the Seal, and no object occurs twice; the Seal has just those
/// parts.
pub proof fn law_seals_are_of_fitting_parts(
    partition: crate::domain::partition::PartitionId,
    generation: crate::domain::coordinate::SealGeneration,
    replay: WalReplayPoint,
    directory: TreeVersion,
    ledger: TreeVersion,
    seal: Result<Seal, SealError>,
)
    requires
        call_ensures(Seal::new, (partition, generation, replay, directory, ledger), seal),
    ensures
        ({
            let first = crate::domain::seal::tree_tables(directory@);
            let second = crate::domain::seal::tree_tables(ledger@);
            &&& seal is Ok <==> {
                &&& generation.value == 1 ==> replay == WalReplayPoint::Genesis && directory@.len()
                    == 0 && ledger@.len() == 0
                &&& replay matches WalReplayPoint::Through { owner, .. } ==> owner.generation.value
                    < generation.value
                &&& forall|i: int|
                    0 <= i < first.len() ==> fits_tree(
                        #[trigger] first[i],
                        StoreKind::Directory,
                        generation.value,
                    )
                &&& forall|i: int|
                    0 <= i < second.len() ==> fits_tree(
                        #[trigger] second[i],
                        StoreKind::Ledger,
                        generation.value,
                    )
                &&& forall|i: int, j: int|
                    0 <= i < j < first.len() + second.len() ==> (#[trigger] (first
                        + second)[i]).object != (#[trigger] (first + second)[j]).object
            }
            &&& seal matches Ok(made) ==> {
                &&& made.partition == partition
                &&& made.generation == generation
                &&& made.replay == replay
                &&& made.directory@ == directory@
                &&& made.ledger@ == ledger@
            }
        }),
{
    let model = SealModel {
        partition,
        generation,
        replay,
        directory: directory@,
        ledger: ledger@,
    };
    lemma_right_tables(
        crate::domain::seal::tree_tables(directory@),
        StoreKind::Directory,
        model,
    );
    lemma_right_tables(crate::domain::seal::tree_tables(ledger@), StoreKind::Ledger, model);
}

/// The tables of a tree are those of its runs, run by run and in order.
pub proof fn law_tree_tables_run_by_run(
    first: Seq<Seq<TableRef>>,
    second: Seq<Seq<TableRef>>,
    run: Seq<TableRef>,
)
    ensures
        crate::domain::seal::tree_tables(Seq::empty()) == Seq::<TableRef>::empty(),
        crate::domain::seal::tree_tables(seq![run]) == run,
        crate::domain::seal::tree_tables(first + second) == crate::domain::seal::tree_tables(first)
            + crate::domain::seal::tree_tables(second),
{
    let none = Seq::<Seq<TableRef>>::empty();
    assert(seq![run].drop_last() =~= none);
    assert(crate::domain::seal::tree_tables(none) =~= Seq::<TableRef>::empty());
    assert(crate::domain::seal::tree_tables(seq![run]) =~= run);
    crate::domain::seal::lemma_tree_tables_join(first, second);
}

/// A claim moves the generation on by one and changes nothing else; the last generation
/// cannot be claimed.
pub proof fn law_claims_change_the_generation_only(seal: Seal, claim: Result<Seal, SealError>)
    requires
        seal.wf(),
        call_ensures(Seal::claim_successor, (&seal,), claim),
    ensures
        claim is Ok <==> seal.generation.value < u64::MAX,
        claim matches Ok(next) ==> {
            &&& next.generation.value == seal.generation.value + 1
            &&& next.partition == seal.partition
            &&& next.replay == seal.replay
            &&& next.directory@ == seal.directory@
            &&& next.ledger@ == seal.ledger@
        },
        claim matches Err(error) ==> error == SealError::GenerationExhausted,
{
}

/// A Seal's identity, cut and tables are its own.
pub proof fn law_seals_say_their_fields(
    seal: Seal,
    identity: SealIdentity,
    cut: Option<BatchId>,
    tables: Vec<TableRef>,
)
    requires
        call_ensures(Seal::identity, (&seal,), identity),
        call_ensures(WalReplayPoint::batch, (seal.replay,), cut),
        call_ensures(Seal::tables, (&seal,), tables),
    ensures
        identity.partition == seal.partition,
        identity.generation == seal.generation,
        match seal.replay {
            WalReplayPoint::Genesis => cut is None,
            WalReplayPoint::Through { batch, .. } => cut == Some(batch),
        },
        tables@ == crate::domain::seal::tree_tables(seal.directory@)
            + crate::domain::seal::tree_tables(seal.ledger@),
        seal.directory@.len() == seal.directory.runs@.len(),
        seal.ledger@.len() == seal.ledger.runs@.len(),
        forall|i: int|
            0 <= i < seal.directory@.len() ==> #[trigger] seal.directory@[i]
                == seal.directory.runs@[i].tables@,
        forall|i: int|
            0 <= i < seal.ledger@.len() ==> #[trigger] seal.ledger@[i]
                == seal.ledger.runs@[i].tables@,
{
}

/// Sizes: a table object has at most a hundred and twenty-eight mebibytes, a run one to
/// four thousand and ninety-six tables, a tree at most sixteen runs; and a table's owner
/// claimed before the table was born.
pub proof fn law_tables_and_runs_are_bounded(
    object: TableObjectId,
    object_bytes: u64,
    table: Result<TableRef, SealError>,
    birth: crate::domain::coordinate::SealGeneration,
    attempt: AttemptId,
    ordinal: u32,
    fresh: Result<FreshIdentity, TableIdentityError>,
    tree: Seq<Seq<TableRef>>,
    run: Seq<TableRef>,
)
    requires
        call_ensures(TableRef::new, (object, object_bytes), table),
        call_ensures(FreshIdentity::new, (birth, attempt, ordinal), fresh),
    ensures
        table is Ok <==> object_bytes <= 134_217_728,
        table matches Ok(made) ==> made.object == object && made.object_bytes == object_bytes,
        fresh is Ok <==> attempt.owner_claim.value < birth.value,
        fresh matches Ok(made) ==> made.birth_generation == birth && made.attempt == attempt
            && made.ordinal == ordinal,
        crate::domain::seal::run_wf(run) ==> 1 <= run.len() <= 4096,
        crate::domain::seal::tree_wf(tree) ==> tree.len() <= 16,
        crate::domain::seal::tree_wf(tree) && crate::domain::seal::run_wf(run) && tree.len() < 16
            ==> crate::domain::seal::tree_wf(tree.push(run)),
        crate::domain::seal::run_wf(run) && run.len() < 4096 && object.fresh.wf() && 1
            <= object_bytes <= 134_217_728 ==> crate::domain::seal::run_wf(
            run.push(TableRef { object, object_bytes }),
        ),
{
}

/// Runs and trees are made of what they are given, within their sizes.
pub proof fn law_runs_and_trees_keep_their_parts(
    tables: Vec<TableRef>,
    run: Result<SortedRun, SealError>,
    runs: Vec<SortedRun>,
    tree: Result<TreeVersion, SealError>,
)
    requires
        call_ensures(SortedRun::try_from, (tables,), run),
        call_ensures(TreeVersion::try_from, (runs,), tree),
    ensures
        tables@.len() == 0 ==> run == Err::<SortedRun, SealError>(SealError::EmptyRun),
        tables@.len() > 4096 ==> run == Err::<SortedRun, SealError>(SealError::TablesOverMax),
        1 <= tables@.len() <= 4096 ==> (run matches Ok(made) && made.tables == tables),
        runs@.len() > 16 ==> tree == Err::<TreeVersion, SealError>(SealError::RunsOverMax),
        runs@.len() <= 16 ==> (tree matches Ok(made) && made.runs == runs),
{
}

// Archives

/// The numbers in a log object's archive: place, owner and facts in their places; a
/// creation is variant 0, a close 1, a delete 2; no expiry is variant 0, a time to live 1
/// and an instant 2; open is 0 and closed 1.
pub proof fn law_log_archive_numbers(
    object: WalModel,
    fact: FactModel,
    expiry: ExpiryPolicy,
    lifecycle: StreamLifecycle,
)
    ensures
        ({
            let archive = crate::domain::wal_codec::wal_archive(object);
            &&& archive.0 == object.partition.octets@
            &&& archive.1 == object.batch.value
            &&& archive.2 == object.owner.generation.value
            &&& archive.3 is Some <==> object.facts is Some
            &&& object.facts matches Some(facts) ==> archive.3->0.len() == facts.len() && forall|
                i: int,
            |
                0 <= i < facts.len() ==> #[trigger] archive.3->0[i]
                    == crate::domain::wal_codec::fact_archive(facts[i])
        }),
        ({
            let raw = crate::domain::wal_codec::fact_archive(fact);
            match fact {
                FactModel::StreamCreated { path, uid, content_type, expiry, lifecycle } => {
                    &&& raw.0 == 0
                    &&& raw.1 == path
                    &&& raw.2 == uid.value
                    &&& raw.3 == content_type
                    &&& raw.4 == crate::domain::wal_codec::expiry_archive(expiry)
                    &&& raw.5 == crate::domain::wal_codec::lifecycle_tag(lifecycle)
                },
                FactModel::StreamClosed { path, uid } => raw.0 == 1 && raw.1 == path && raw.2
                    == uid.value,
                FactModel::StreamDeleted { path, uid } => raw.0 == 2 && raw.1 == path && raw.2
                    == uid.value,
            }
        }),
        ({
            let raw = crate::domain::wal_codec::expiry_archive(expiry);
            match expiry {
                ExpiryPolicy::Never => raw.0 == 0,
                ExpiryPolicy::SlidingTtl(ttl) => raw.0 == 1 && raw.1 == ttl.seconds,
                ExpiryPolicy::AbsoluteExpiry(at) => raw.0 == 2 && (at.unix_nanoseconds >= 0
                    ==> raw.1 == at.unix_nanoseconds) && (at.unix_nanoseconds < 0 ==> raw.1
                    == 0x1_0000_0000_0000_0000_0000_0000_0000_0000 + at.unix_nanoseconds),
            }
        }),
        crate::domain::wal_codec::lifecycle_tag(lifecycle) == 0 <==> lifecycle
            == StreamLifecycle::Open,
        crate::domain::wal_codec::lifecycle_tag(lifecycle) == 1 <==> lifecycle
            == StreamLifecycle::Closed,
{
}

/// The numbers in a Seal's archive and in a table's: everything in its place; the genesis
/// is variant 0 and a cut 1; the stores are numbered from the Directory on.
pub proof fn law_seal_archive_numbers(seal: SealModel, table: TableRef, replay: WalReplayPoint)
    ensures
        ({
            let archive = crate::domain::seal_codec::seal_archive(seal);
            &&& archive.0 == seal.partition.octets@
            &&& archive.1 == seal.generation.value
            &&& archive.2 == crate::domain::seal_codec::replay_archive(seal.replay)
            &&& archive.3.len() == seal.directory.len()
            &&& archive.4.len() == seal.ledger.len()
            &&& forall|i: int|
                0 <= i < seal.directory.len() ==> #[trigger] archive.3[i]
                    == crate::domain::seal_codec::run_archive(seal.directory[i])
            &&& forall|i: int|
                0 <= i < seal.ledger.len() ==> #[trigger] archive.4[i]
                    == crate::domain::seal_codec::run_archive(seal.ledger[i])
        }),
        crate::domain::seal_codec::run_archive(seq![table]) == seq![
            crate::domain::seal_codec::table_archive(table),
        ],
        ({
            let raw = crate::domain::seal_codec::table_archive(table);
            &&& raw.0 == table.object.fresh.birth_generation.value
            &&& raw.1 == table.object.fresh.attempt.owner_claim.value
            &&& raw.2 == table.object.fresh.attempt.local_counter
            &&& raw.3 == table.object.fresh.ordinal
            &&& raw.4 == match table.object.store {
                StoreKind::Directory => 0u8,
                StoreKind::Ledger => 1u8,
                StoreKind::Tally => 2u8,
                StoreKind::Annals => 3u8,
            }
            &&& raw.5 == table.object_bytes
        }),
        match replay {
            WalReplayPoint::Genesis => crate::domain::seal_codec::replay_archive(replay).0 == 0,
            WalReplayPoint::Through { batch, owner } => crate::domain::seal_codec::replay_archive(
                replay,
            ) == (1u8, batch.value, owner.generation.value),
        },
{
    assert(crate::domain::seal_codec::run_archive(seq![table]) =~= seq![
        crate::domain::seal_codec::table_archive(table),
    ]);
}

/// The numbers in table archives: a live entry is variant 0 and a tombstone 1; a record
/// has its content type, expiry, lifecycle and creation in this order; a deleted row has
/// no record.
pub proof fn law_table_archive_numbers(
    key: TableKey,
    entry: DirectoryEntry,
    row: (StreamUid, Option<RecordModel>),
    entries: Seq<(Seq<u8>, DirectoryEntry)>,
    rows: Seq<(StreamUid, Option<RecordModel>)>,
)
    ensures
        match entry {
            DirectoryEntry::Live(uid) => crate::domain::sst_directory::entry_archive(entry) == (
                0u8,
                uid.value,
            ),
            DirectoryEntry::Tombstone(uid) => crate::domain::sst_directory::entry_archive(entry)
                == (1u8, uid.value),
        },
        ({
            let raw = crate::domain::sst_ledger::ledger_row_archive(row);
            &&& raw.0 == row.0.value
            &&& raw.1 is Some <==> row.1 is Some
            &&& row.1 matches Some(record) ==> raw.1 == Some(
                (
                    record.content_type,
                    crate::domain::wal_codec::expiry_archive(record.expiry),
                    crate::domain::wal_codec::lifecycle_tag(record.lifecycle),
                    record.created_at.value,
                ),
            )
        }),
        ({
            let archive = crate::domain::sst_directory::directory_archive(key, entries);
            &&& archive.0 == key.partition.octets@
            &&& archive.1.0 == key.object.fresh.birth_generation.value
            &&& archive.1.1 == key.object.fresh.attempt.owner_claim.value
            &&& archive.1.2 == key.object.fresh.attempt.local_counter
            &&& archive.1.3 == key.object.fresh.ordinal
            &&& archive.2.len() == entries.len()
            &&& forall|i: int|
                0 <= i < entries.len() ==> (#[trigger] archive.2[i]) == (
                    vstd::utf8::decode_utf8(entries[i].0),
                    crate::domain::sst_directory::entry_archive(entries[i].1),
                )
        }),
        ({
            let archive = crate::domain::sst_ledger::ledger_archive(key, rows);
            &&& archive.0 == key.partition.octets@
            &&& archive.1.0 == key.object.fresh.birth_generation.value
            &&& archive.1.1 == key.object.fresh.attempt.owner_claim.value
            &&& archive.1.2 == key.object.fresh.attempt.local_counter
            &&& archive.1.3 == key.object.fresh.ordinal
            &&& archive.2.len() == rows.len()
            &&& forall|i: int|
                0 <= i < rows.len() ==> #[trigger] archive.2[i]
                    == crate::domain::sst_ledger::ledger_row_archive(rows[i])
        }),
{
}

/// A frame is `STRM`, a kind that is 1 for a Seal and 2 for a log object, the version, the
/// body, and the checksum of all that with its highest byte first.
pub proof fn law_frames_are_laid_out(kind: ObjectKind, version: u8, body: Seq<u8>)
    ensures
        ({
            let frame = crate::domain::envelope::frame_bytes(kind, version, body);
            let covered = frame.take(body.len() as int + 6);
            let sum = crate::domain::envelope::crc32c_value(covered);
            let at = body.len() as int + 6;
            &&& frame.len() == body.len() + 10
            &&& frame[0] == 83 && frame[1] == 84 && frame[2] == 82 && frame[3] == 77
            &&& frame[4] == (if kind == ObjectKind::Seal {
                1u8
            } else {
                2u8
            })
            &&& frame[5] == version
            &&& frame.subrange(6, at) == body
            &&& frame[at] * 0x100_0000 + frame[at + 1] * 0x1_0000 + frame[at + 2] * 0x100 + frame[at
                + 3] == sum
        }),
{
    let frame = crate::domain::envelope::frame_bytes(kind, version, body);
    let covered = crate::domain::envelope::frame_covered(kind, version, body);
    assert(frame.take(body.len() as int + 6) =~= covered);
    assert(frame.subrange(6, body.len() as int + 6) =~= body);
}

// Reading

/// Bytes are read as a log object only at its own place, and only where they are at most
/// four mebibytes, the owner is not zero, and the grammar accepts every field of every
/// one of the at most four thousand and ninety-six facts.
pub proof fn law_log_bytes_are_read_with_care(
    identity: WalIdentity,
    bytes: Seq<u8>,
    accepts: spec_fn(ProtocolText) -> bool,
)
    requires
        bytes.len() <= usize::MAX,
    ensures
        ({
            let decoded = crate::domain::wal_codec::spec_decode_wal(identity, bytes, accepts);
            &&& bytes.len() > 4_194_304 ==> (decoded
                matches Err(DecodeError::EncodedBytesOverMax { bytes_max, bytes_actual })
                && bytes_max == 4_194_304 && bytes_actual == bytes.len())
            &&& decoded matches Ok(object) ==> {
                &&& bytes.len() <= 4_194_304
                &&& object.partition == identity.partition
                &&& object.batch == identity.batch
                &&& object.owner.generation.value != 0
                &&& object.facts matches Some(facts) ==> 1 <= facts.len() <= 4096 && forall|i: int|
                    0 <= i < facts.len() ==> is_accepted(#[trigger] facts[i], accepts)
            }
        }),
{
    let decoded = crate::domain::wal_codec::spec_decode_wal(identity, bytes, accepts);
    if let Ok(object) = decoded {
        if let Some(facts) = object.facts {
            let whole = crate::domain::wal_codec::stored_wal_value(bytes)->0;
            let raw = whole.3->0;
            assert forall|i: int| 0 <= i < facts.len() implies is_accepted(
                #[trigger] facts[i],
                accepts,
            ) by {
                assert(crate::domain::wal_codec::fact_structured(raw[i]));
                assert(facts[i] == crate::domain::wal_codec::archived_fact(raw[i]));
                assert(crate::domain::wal_codec::fact_accepted(facts[i], accepts));
            }
        }
    }
}

/// The grammar accepts each field of the fact, within its size.
pub open spec fn is_accepted(fact: FactModel, accepts: spec_fn(ProtocolText) -> bool) -> bool {
    match fact {
        FactModel::StreamCreated { path, uid, content_type, expiry, .. } => {
            &&& uid.value != 0
            &&& path.len() <= 512
            &&& accepts(ProtocolText::StreamPath(path))
            &&& vstd::utf8::encode_utf8(content_type).len() <= 256
            &&& accepts(ProtocolText::ContentType(content_type))
            &&& match expiry {
                ExpiryPolicy::Never => true,
                ExpiryPolicy::SlidingTtl(ttl) => ttl.seconds != 0,
                ExpiryPolicy::AbsoluteExpiry(at) => accepts(
                    ProtocolText::ExpiresAt(at.unix_nanoseconds),
                ),
            }
        },
        FactModel::StreamClosed { path, uid } => uid.value != 0 && path.len() <= 512 && accepts(
            ProtocolText::StreamPath(path),
        ),
        FactModel::StreamDeleted { path, uid } => uid.value != 0 && path.len() <= 512 && accepts(
            ProtocolText::StreamPath(path),
        ),
    }
}

/// The bytes of a valid log object that the grammar accepts are read back as that object
/// at its own place and refused at every other one.
pub proof fn law_log_objects_are_read_back(
    object: WalModel,
    identity: WalIdentity,
    bytes: Seq<u8>,
    accepts: spec_fn(ProtocolText) -> bool,
)
    requires
        object.wf(),
        object.facts matches Some(facts) ==> forall|i: int|
            0 <= i < facts.len() ==> is_accepted(#[trigger] facts[i], accepts),
        bytes.len() <= 4_194_304,
        crate::domain::wal_codec::stored_wal_value(bytes) == Some(
            crate::domain::wal_codec::wal_archive(object),
        ),
    ensures
        ({
            let decoded = crate::domain::wal_codec::spec_decode_wal(identity, bytes, accepts);
            &&& identity.partition == object.partition && identity.batch == object.batch
                ==> decoded == Ok::<WalModel, DecodeError>(object)
            &&& identity.batch.value != object.batch.value || identity.partition.octets@
                != object.partition.octets@ ==> decoded == Err::<WalModel, DecodeError>(
                DecodeError::IdentityMismatch,
            )
        }),
{
    if let Some(facts) = object.facts {
        assert forall|i: int| 0 <= i < facts.len() implies crate::domain::wal_codec::fact_accepted(
            #[trigger] facts[i],
            accepts,
        ) by {
            assert(facts[i].wf());
            assert(is_accepted(facts[i], accepts));
        }
    }
    crate::domain::wal_codec::law_wal_round_trips(object, bytes, accepts);
    lemma_log_archive_is_structured(object);
}

proof fn lemma_log_archive_is_structured(object: WalModel)
    requires
        object.wf(),
    ensures
        crate::domain::wal_codec::wal_structured(crate::domain::wal_codec::wal_archive(object)),
{
    let raw = crate::domain::wal_codec::wal_archive(object);
    if let Some(facts) = object.facts {
        assert forall|i: int| 0 <= i < facts.len() implies crate::domain::wal_codec::fact_structured(
            #[trigger] raw.3->0[i],
        ) by {
            assert(facts[i].wf());
        }
    }
}

/// Bytes are read as a Seal only at its own place, and only where they are at most one
/// mebibyte and the parts fit together.
pub proof fn law_seal_bytes_are_read_with_care(
    identity: SealIdentity,
    bytes: &[u8],
    decoded: Result<Seal, DecodeError>,
)
    requires
        call_ensures(decode_seal, (&identity, bytes), decoded),
    ensures
        bytes@.len() > 1_048_576 ==> decoded == Err::<Seal, DecodeError>(
            DecodeError::EncodedBytesOverMax {
                bytes_max: 1_048_576,
                bytes_actual: bytes@.len() as usize,
            },
        ),
        decoded matches Ok(seal) ==> {
            &&& bytes@.len() <= 1_048_576
            &&& seal.partition == identity.partition
            &&& seal.generation == identity.generation
            &&& seal@.error() is None
        },
{
}

/// The bytes of a valid Seal are read back as that Seal at its own place and refused at
/// every other one.
pub proof fn law_seals_are_read_back(
    seal: SealModel,
    identity: SealIdentity,
    bytes: &[u8],
    decoded: Result<Seal, DecodeError>,
)
    requires
        seal.wf(),
        bytes@.len() <= 1_048_576,
        crate::domain::archive::seal_archive_value(bytes@) == Some(
            crate::domain::seal_codec::seal_archive(seal),
        ),
        call_ensures(decode_seal, (&identity, bytes), decoded),
    ensures
        identity.partition == seal.partition && identity.generation == seal.generation ==> (decoded
            matches Ok(read) && read@ == seal),
        identity.generation.value != seal.generation.value || identity.partition.octets@
            != seal.partition.octets@ ==> decoded == Err::<Seal, DecodeError>(
            DecodeError::IdentityMismatch,
        ),
{
    crate::domain::seal_codec::law_seal_round_trips(seal, bytes@);
    lemma_seal_archive_is_structured(seal);
}

proof fn lemma_seal_archive_is_structured(seal: SealModel)
    requires
        seal.wf(),
    ensures
        crate::domain::seal_codec::seal_structured(crate::domain::seal_codec::seal_archive(seal)),
{
    lemma_tree_archive_is_structured(seal.directory);
    lemma_tree_archive_is_structured(seal.ledger);
}

proof fn lemma_tree_archive_is_structured(tree: Seq<Seq<TableRef>>)
    requires
        crate::domain::seal::tree_wf(tree),
    ensures
        crate::domain::seal_codec::tree_structured(crate::domain::seal_codec::tree_archive(tree)),
{
    let raw = crate::domain::seal_codec::tree_archive(tree);
    assert forall|r: int| 0 <= r < raw.len() implies crate::domain::seal_codec::run_structured(
        #[trigger] raw[r],
    ) by {
        assert(crate::domain::seal::run_wf(tree[r]));
        assert forall|t: int|
            0 <= t < raw[r].len() implies crate::domain::seal_codec::table_structured(
            #[trigger] raw[r][t],
        ) by {
            assert(tree[r][t].wf());
        }
    }
}

/// The expiry is the one that the archived variant and payload number.
pub open spec fn numbers_expiry(raw: (u8, u128), expiry: ExpiryPolicy) -> bool {
    match expiry {
        ExpiryPolicy::Never => raw.0 == 0,
        ExpiryPolicy::SlidingTtl(ttl) => raw.0 == 1 && ttl.seconds == raw.1
            % 0x1_0000_0000_0000_0000,
        ExpiryPolicy::AbsoluteExpiry(at) => raw.0 == 2 && (raw.1 as int == at.unix_nanoseconds
            || raw.1 as int == 0x1_0000_0000_0000_0000_0000_0000_0000_0000 + at.unix_nanoseconds),
    }
}

/// The lifecycle is the one that the archived number stands for.
pub open spec fn numbers_lifecycle(raw: u8, lifecycle: StreamLifecycle) -> bool {
    match lifecycle {
        StreamLifecycle::Open => raw == 0,
        StreamLifecycle::Closed => raw == 1,
    }
}

/// The fact is the one that the archived numbers and texts stand for.
pub open spec fn numbers_fact(raw: crate::domain::archive::FactArchive, fact: FactModel) -> bool {
    match fact {
        FactModel::StreamCreated { path, uid, content_type, expiry, lifecycle } => {
            &&& raw.0 == 0
            &&& path == raw.1
            &&& uid.value == raw.2
            &&& content_type == raw.3
            &&& numbers_expiry(raw.4, expiry)
            &&& numbers_lifecycle(raw.5, lifecycle)
        },
        FactModel::StreamClosed { path, uid } => raw.0 == 1 && path == raw.1 && uid.value == raw.2,
        FactModel::StreamDeleted { path, uid } => raw.0 == 2 && path == raw.1 && uid.value == raw.2,
    }
}

/// What is read of archived numbers is what they stand for: no unknown variant is read as
/// a known one.
pub proof fn law_log_objects_are_what_was_archived(
    identity: WalIdentity,
    raw: crate::domain::archive::WalArchive,
    accepts: spec_fn(ProtocolText) -> bool,
)
    ensures
        crate::domain::wal_codec::spec_decode_archived_wal(identity, raw, accepts) matches Ok(object)
            ==> {
            &&& object.partition.octets@ == raw.0
            &&& object.batch.value == raw.1
            &&& object.owner.generation.value == raw.2
            &&& object.facts is Some <==> raw.3 is Some
            &&& object.facts matches Some(facts) ==> facts.len() == raw.3->0.len() && forall|i: int|
                0 <= i < facts.len() ==> numbers_fact(raw.3->0[i], #[trigger] facts[i])
        },
        raw.0 == seq![0u8; 16] ==> crate::domain::wal_codec::spec_decode_archived_wal(
            identity,
            raw,
            accepts,
        ) is Err,
{
    if let Ok(object) = crate::domain::wal_codec::spec_decode_archived_wal(identity, raw, accepts) {
        if let Some(facts) = object.facts {
            assert forall|i: int| 0 <= i < facts.len() implies numbers_fact(
                raw.3->0[i],
                #[trigger] facts[i],
            ) by {
                assert(crate::domain::wal_codec::fact_structured(raw.3->0[i]));
                assert(facts[i] == crate::domain::wal_codec::archived_fact(raw.3->0[i]));
            }
        }
    }
}

/// The table is the one that the archived numbers stand for.
pub open spec fn numbers_table(raw: crate::domain::archive::RawTable, table: TableRef) -> bool {
    &&& table.object.fresh.birth_generation.value == raw.0
    &&& table.object.fresh.attempt.owner_claim.value == raw.1
    &&& table.object.fresh.attempt.local_counter == raw.2
    &&& table.object.fresh.ordinal == raw.3
    &&& match table.object.store {
        StoreKind::Directory => raw.4 == 0,
        StoreKind::Ledger => raw.4 == 1,
        StoreKind::Tally => raw.4 == 2,
        StoreKind::Annals => raw.4 == 3,
    }
    &&& table.object_bytes == raw.5
}

/// What is read of a Seal's archived numbers is what they stand for.
pub proof fn law_seals_are_what_was_archived(
    identity: SealIdentity,
    raw: crate::domain::archive::SealArchive,
    r: int,
    t: int,
)
    ensures
        crate::domain::seal_codec::spec_decode_archived_seal(identity, raw) matches Ok(seal) ==> {
            &&& seal.partition.octets@ == raw.0
            &&& seal.generation.value == raw.1
            &&& match seal.replay {
                WalReplayPoint::Genesis => raw.2.0 == 0,
                WalReplayPoint::Through { batch, owner } => raw.2.0 == 1 && batch.value == raw.2.1
                    && owner.generation.value == raw.2.2,
            }
            &&& seal.directory.len() == raw.3.len()
            &&& 0 <= r < raw.3.len() ==> seal.directory[r].len() == raw.3[r].len() && (0 <= t
                < raw.3[r].len() ==> numbers_table(raw.3[r][t], seal.directory[r][t]))
            &&& seal.ledger.len() == raw.4.len()
            &&& 0 <= r < raw.4.len() ==> seal.ledger[r].len() == raw.4[r].len() && (0 <= t
                < raw.4[r].len() ==> numbers_table(raw.4[r][t], seal.ledger[r][t]))
        },
        raw.0 == seq![0u8; 16] ==> crate::domain::seal_codec::spec_decode_archived_seal(
            identity,
            raw,
        ) is Err,
{
    if let Ok(seal) = crate::domain::seal_codec::spec_decode_archived_seal(identity, raw) {
        if 0 <= r < raw.3.len() && 0 <= t < raw.3[r].len() {
            assert(crate::domain::seal_codec::run_structured(raw.3[r]));
            assert(crate::domain::seal_codec::table_structured(raw.3[r][t]));
        }
        if 0 <= r < raw.4.len() && 0 <= t < raw.4[r].len() {
            assert(crate::domain::seal_codec::run_structured(raw.4[r]));
            assert(crate::domain::seal_codec::table_structured(raw.4[r][t]));
        }
    }
}

/// What is read of archived table rows is what they stand for.
pub proof fn law_rows_are_what_was_archived(
    expected: TableKey,
    entries: crate::domain::archive::DirectoryArchive,
    cells: crate::domain::archive::LedgerArchive,
    accepts: spec_fn(ProtocolText) -> bool,
    i: int,
)
    ensures
        crate::domain::sst_directory::spec_decode_archived_directory(
            expected,
            entries,
            accepts,
        ) matches Ok(rows) ==> {
            &&& entries.0 == expected.partition.octets@
            &&& rows.len() == entries.2.len()
            &&& 0 <= i < rows.len() ==> {
                &&& rows[i].0 == vstd::utf8::encode_utf8(entries.2[i].0)
                &&& match rows[i].1 {
                    DirectoryEntry::Live(uid) => entries.2[i].1 == (0u8, uid.value),
                    DirectoryEntry::Tombstone(uid) => entries.2[i].1 == (1u8, uid.value),
                }
            }
        },
        crate::domain::sst_ledger::spec_decode_archived_ledger(expected, cells, accepts) matches Ok(
            rows,
        ) ==> {
            &&& cells.0 == expected.partition.octets@
            &&& rows.len() == cells.2.len()
            &&& 0 <= i < rows.len() ==> {
                &&& rows[i].0.value == cells.2[i].0
                &&& rows[i].1 is Some <==> cells.2[i].1 is Some
                &&& rows[i].1 matches Some(record) ==> {
                    let raw = cells.2[i].1->0;
                    &&& record.content_type == raw.0
                    &&& numbers_expiry(raw.1, record.expiry)
                    &&& numbers_lifecycle(raw.2, record.lifecycle)
                    &&& record.created_at.value == raw.3
                }
            }
        },
{
    if let Ok(rows) = crate::domain::sst_directory::spec_decode_archived_directory(
        expected,
        entries,
        accepts,
    ) {
        if 0 <= i < rows.len() {
            assert(crate::domain::sst_directory::directory_row_structured(entries.2[i]));
        }
    }
    if let Ok(rows) = crate::domain::sst_ledger::spec_decode_archived_ledger(
        expected,
        cells,
        accepts,
    ) {
        if 0 <= i < rows.len() {
            assert(crate::domain::sst_ledger::ledger_row_structured(cells.2[i]));
        }
    }
}

/// Bytes are read as Directory rows only under a Directory key, where they are at most a
/// hundred and twenty-eight mebibytes and hold one to ten million rows of strictly
/// ascending paths that the grammar accepts.
pub proof fn law_directory_bytes_are_read_with_care(
    expected: TableKey,
    bytes: Seq<u8>,
    accepts: spec_fn(ProtocolText) -> bool,
)
    ensures
        ({
            let decoded = crate::domain::sst_directory::spec_decode_directory_sst(
                expected,
                bytes,
                accepts,
            );
            &&& bytes.len() > 134_217_728 ==> decoded is Err
            &&& expected.object.store != StoreKind::Directory ==> decoded is Err
            &&& decoded matches Ok(rows) ==> {
                &&& 1 <= rows.len() <= 10_000_000
                &&& forall|i: int|
                    0 <= i < rows.len() ==> is_accepted_row(#[trigger] rows[i], accepts)
                &&& forall|i: int, j: int|
                    0 <= i < j < rows.len() ==> crate::domain::text::bytes_less(
                        (#[trigger] rows[i]).0,
                        (#[trigger] rows[j]).0,
                    )
            }
        }),
{
    let decoded = crate::domain::sst_directory::spec_decode_directory_sst(
        expected,
        bytes,
        accepts,
    );
    if let Ok(rows) = decoded {
        let whole = crate::domain::archive::directory_archive_value(bytes)->0;
        let raw = whole.2;
        assert forall|i: int| 0 <= i < rows.len() implies is_accepted_row(
            #[trigger] rows[i],
            accepts,
        ) by {
            assert(crate::domain::sst_directory::directory_row_structured(raw[i]));
            assert(crate::domain::sst_directory::stored_path_accepted(rows[i].0, accepts));
        }
    }
}

/// The path has one to five hundred and twelve bytes and the grammar accepts it; the
/// stream is not zero.
pub open spec fn is_accepted_row(
    row: (Seq<u8>, DirectoryEntry),
    accepts: spec_fn(ProtocolText) -> bool,
) -> bool {
    &&& 1 <= row.0.len() <= 512
    &&& accepts(ProtocolText::StreamPath(row.0))
    &&& match row.1 {
        DirectoryEntry::Live(uid) => uid.value != 0,
        DirectoryEntry::Tombstone(uid) => uid.value != 0,
    }
}

/// Bytes are read as Ledger rows only under a Ledger key, where they are at most a hundred
/// and twenty-eight mebibytes and hold one to ten million rows of strictly ascending
/// streams whose records the grammar accepts.
pub proof fn law_ledger_bytes_are_read_with_care(
    expected: TableKey,
    bytes: Seq<u8>,
    accepts: spec_fn(ProtocolText) -> bool,
)
    ensures
        ({
            let decoded = crate::domain::sst_ledger::spec_decode_ledger_sst(
                expected,
                bytes,
                accepts,
            );
            &&& bytes.len() > 134_217_728 ==> decoded is Err
            &&& expected.object.store != StoreKind::Ledger ==> decoded is Err
            &&& decoded matches Ok(rows) ==> {
                &&& 1 <= rows.len() <= 10_000_000
                &&& forall|i: int|
                    0 <= i < rows.len() ==> is_accepted_record(#[trigger] rows[i], accepts)
                &&& forall|i: int, j: int|
                    0 <= i < j < rows.len() ==> (#[trigger] rows[i]).0.value < (
                    #[trigger] rows[j]).0.value
            }
        }),
{
    let decoded = crate::domain::sst_ledger::spec_decode_ledger_sst(expected, bytes, accepts);
    if let Ok(rows) = decoded {
        let whole = crate::domain::archive::ledger_archive_value(bytes)->0;
        let raw = whole.2;
        assert forall|i: int| 0 <= i < rows.len() implies is_accepted_record(
            #[trigger] rows[i],
            accepts,
        ) by {
            assert(crate::domain::sst_ledger::ledger_row_structured(raw[i]));
            assert(crate::domain::sst_ledger::cell_accepted(rows[i].1, accepts));
        }
    }
}

/// The stream is not zero; a record was created at a coordinate that is not zero, its
/// content type has at most two hundred and fifty-six bytes and the grammar accepts it
/// and the instant of its expiry, and its time to live is not zero.
pub open spec fn is_accepted_record(
    row: (StreamUid, Option<RecordModel>),
    accepts: spec_fn(ProtocolText) -> bool,
) -> bool {
    &&& row.0.value != 0
    &&& row.1 matches Some(record) ==> {
        &&& vstd::utf8::encode_utf8(record.content_type).len() <= 256
        &&& accepts(ProtocolText::ContentType(record.content_type))
        &&& record.created_at.value != 0
        &&& record.expiry matches ExpiryPolicy::SlidingTtl(ttl) ==> ttl.seconds != 0
        &&& record.expiry matches ExpiryPolicy::AbsoluteExpiry(at) ==> accepts(
            ProtocolText::ExpiresAt(at.unix_nanoseconds),
        )
    }
}

/// The bytes of ordered, acceptable rows are read back under their own key and refused
/// under every other one of the same store.
pub proof fn law_rows_are_refused_elsewhere(
    key: TableKey,
    asked: TableKey,
    entries: Seq<(Seq<u8>, DirectoryEntry)>,
    rows: Seq<(StreamUid, Option<RecordModel>)>,
    bytes: Seq<u8>,
    accepts: spec_fn(ProtocolText) -> bool,
)
    requires
        key.wf(),
        asked.object.store == key.object.store,
        asked.partition.octets@ != key.partition.octets@ || asked.object.fresh != key.object.fresh,
        bytes.len() <= 134_217_728,
        forall|i: int|
            0 <= i < entries.len() ==> match (#[trigger] entries[i]).1 {
                DirectoryEntry::Live(uid) => uid.value != 0,
                DirectoryEntry::Tombstone(uid) => uid.value != 0,
            },
        forall|i: int|
            0 <= i < rows.len() ==> (#[trigger] rows[i]).0.value != 0 && (rows[i].1 matches Some(
                record,
            ) ==> record.created_at.value != 0),
    ensures
        key.object.store == StoreKind::Directory
            && crate::domain::archive::directory_archive_value(bytes) == Some(
            crate::domain::sst_directory::directory_archive(key, entries),
        ) ==> crate::domain::sst_directory::spec_decode_directory_sst(asked, bytes, accepts)
            == Err::<Seq<(Seq<u8>, DirectoryEntry)>, SstDecodeError>(
            SstDecodeError::IdentityMismatch,
        ),
        key.object.store == StoreKind::Ledger && crate::domain::archive::ledger_archive_value(bytes)
            == Some(crate::domain::sst_ledger::ledger_archive(key, rows))
            ==> crate::domain::sst_ledger::spec_decode_ledger_sst(asked, bytes, accepts) == Err::<
            Seq<(StreamUid, Option<RecordModel>)>,
            SstDecodeError,
        >(SstDecodeError::IdentityMismatch),
{
    let first = crate::domain::sst_directory::directory_archive(key, entries);
    assert forall|i: int|
        0 <= i < first.2.len() implies crate::domain::sst_directory::directory_row_structured(
        #[trigger] first.2[i],
    ) by {
        assert(first.2[i].1 == crate::domain::sst_directory::entry_archive(entries[i].1));
    }
    let second = crate::domain::sst_ledger::ledger_archive(key, rows);
    assert forall|i: int|
        0 <= i < second.2.len() implies crate::domain::sst_ledger::ledger_row_structured(
        #[trigger] second.2[i],
    ) by {
        assert(second.2[i] == crate::domain::sst_ledger::ledger_row_archive(rows[i]));
    }
}

} // verus!
