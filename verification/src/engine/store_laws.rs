//! What evidence, listings and bodies come to, said of the evidence itself.

use vstd::prelude::*;
use vstd::string::*;

use crate::domain::candidate::{DecodedTable, EncodedTable, EncodedWal, RowsModel};
use crate::domain::coordinate::BatchId;
use crate::domain::partition::PartitionId;
use crate::domain::protocol::{ProtocolField, ProtocolText};
use crate::domain::seal::{Seal, SealIdentity, TableRef};
use crate::domain::spelling::{SealKey, TableKey, WalKey};
use crate::domain::table::StoreKind;
use crate::domain::wal::{WalIdentity, WalModel, WalObject};
use crate::engine::admission::{decide_suffix_room, AdmissionRefusal};
use crate::engine::completion::{
    complete_publication, publishable, settle_tables, CheckpointCompletion, Preparation, TablesEvent,
};
use crate::engine::forest::FoldContradiction;
use crate::engine::options::{FlushPressure, Options, OptionsError};
use crate::engine::prepare::PreparedCheckpoint;
use crate::engine::store::{
    compare_table, establish_genesis, establish_table, establish_wal, head_partition, newest_seal,
    newest_surviving_wal, publish_authority, read_seal, read_table, read_wal, reconcile_table,
    reconcile_wal, targeted_table_deletes, AuthorizedTableDelete, AuthorizedWalRunDelete, CandidateTableEvidence,
    CreateEvidence, GenesisEstablishment, ObservedWal, SealPublication, StoreErrorModel,
    TableEstablishment, TypedStoreError, WalDeleteRefusal, WalEstablishment,
};

verus! {

/// What a create shows: the genesis is in place whoever wrote its bytes; authority comes
/// only from this call's own create; a log object is durable whoever wrote its bytes; and
/// of an unresolved create nothing is claimed.
pub proof fn law_creates_show_no_more_than_their_evidence(
    evidence: CreateEvidence,
    genesis: GenesisEstablishment,
    authority: SealPublication,
    log: Option<WalEstablishment>,
)
    requires
        call_ensures(establish_genesis, (evidence,), genesis),
        call_ensures(publish_authority, (evidence,), authority),
        call_ensures(establish_wal, (evidence,), log),
    ensures
        genesis is Established <==> evidence is Direct || evidence is DurableMatch,
        genesis is LostRace <==> evidence is NotOurs,
        genesis is Unresolved <==> evidence is Unresolved,
        authority is Authored <==> evidence is Direct,
        authority is NoAuthority <==> evidence is DurableMatch || evidence is NotOurs,
        authority is Unresolved <==> evidence is Unresolved,
        log == Some(WalEstablishment::Durable) <==> evidence is Direct || evidence is DurableMatch,
        log == Some(WalEstablishment::Occupied) <==> evidence is NotOurs,
        log is None <==> evidence is Unresolved,
{
}

/// The read after an unresolved create: the candidate's own bytes make it durable, other
/// bytes occupy its place, and absence resolves nothing.
pub proof fn law_reads_resolve_by_bytes(
    candidate: EncodedWal,
    observed: ObservedWal,
    found: WalEstablishment,
    missing: WalEstablishment,
    table: EncodedTable,
    body: &[u8],
    present: CandidateTableEvidence,
    absent: CandidateTableEvidence,
)
    requires
        call_ensures(reconcile_wal, (&candidate, Some(&observed)), found),
        call_ensures(reconcile_wal, (&candidate, None), missing),
        call_ensures(compare_table, (&table, Some(body)), present),
        call_ensures(compare_table, (&table, None), absent),
    ensures
        found is Durable <==> observed.bytes@ == crate::domain::candidate::shared_bytes(
            candidate.bytes,
        ),
        found is Occupied <==> observed.bytes@ != crate::domain::candidate::shared_bytes(
            candidate.bytes,
        ),
        missing is UnresolvedAbsent,
        present is Match <==> body@ == crate::domain::candidate::shared_bytes(table.bytes),
        present is Foreign <==> body@ != crate::domain::candidate::shared_bytes(table.bytes),
        absent is Absent,
{
}

/// A table is established exactly when this candidate's bytes are in place, contradicts
/// when other bytes are, and is abandoned when nobody knows; a failing store abandons it,
/// unless it contradicts itself.
pub proof fn law_tables_are_established_by_their_bytes(
    created: Result<CreateEvidence, TypedStoreError>,
    settled: Option<TableEstablishment>,
    read: Result<CandidateTableEvidence, TypedStoreError>,
    reconciled: TableEstablishment,
)
    requires
        call_ensures(establish_table, (created,), settled),
        call_ensures(reconcile_table, (read,), reconciled),
    ensures
        match created {
            Ok(CreateEvidence::Direct) => settled matches Some(TableEstablishment::Established),
            Ok(CreateEvidence::DurableMatch) => settled matches Some(
                TableEstablishment::Established,
            ),
            Ok(CreateEvidence::NotOurs) => settled matches Some(
                TableEstablishment::Contradiction { .. },
            ),
            Ok(CreateEvidence::Unresolved) => settled is None,
            Err(TypedStoreError::Contradiction { detail: cause }) => settled matches Some(
                TableEstablishment::Contradiction { detail },
            ) && detail@ == cause@,
            Err(_) => settled matches Some(TableEstablishment::Abandoned),
        },
        match read {
            Ok(CandidateTableEvidence::Match) => reconciled is Established,
            Ok(CandidateTableEvidence::Foreign) => reconciled is Contradiction,
            Ok(CandidateTableEvidence::Absent) => reconciled is Abandoned,
            Err(TypedStoreError::Contradiction { detail: cause }) => reconciled
                matches TableEstablishment::Contradiction { detail } && detail@ == cause@,
            Err(_) => reconciled is Abandoned,
        },
{
}

/// The newest Seal is the one whose key was listed first: the listed text is the spelling
/// of the identity that is read off it, every valid identity is read off its own
/// spelling, nothing is read off nothing, and any other text is a contradiction.
pub proof fn law_newest_seal_is_the_listed_one(
    listed: Option<&str>,
    newest: Result<Option<SealIdentity>, TypedStoreError>,
    identity: SealIdentity,
)
    requires
        call_ensures(newest_seal, (listed,), newest),
        identity.wf(),
    ensures
        listed is None <==> newest == Ok::<Option<SealIdentity>, TypedStoreError>(None),
        listed matches Some(text) ==> (newest == Ok::<Option<SealIdentity>, TypedStoreError>(
            Some(identity),
        ) <==> text.spec_bytes() == (SealKey { identity }).spelling()),
        newest matches Err(error) ==> error is Contradiction,
{
    if let Some(text) = listed {
        (SealKey { identity }).law_spelling_is_canonical(text.spec_bytes());
    }
}

/// The newest surviving log object is the one whose key was listed first.
pub proof fn law_newest_log_object_is_the_listed_one(
    listed: Option<&str>,
    newest: Result<Option<WalIdentity>, TypedStoreError>,
    identity: WalIdentity,
)
    requires
        call_ensures(newest_surviving_wal, (listed,), newest),
        identity.wf(),
    ensures
        listed is None <==> newest == Ok::<Option<WalIdentity>, TypedStoreError>(None),
        listed matches Some(text) ==> (newest == Ok::<Option<WalIdentity>, TypedStoreError>(
            Some(identity),
        ) <==> text.spec_bytes() == (WalKey { identity }).spelling()),
        newest matches Err(error) ==> error is Contradiction,
{
    if let Some(text) = listed {
        (WalKey { identity }).law_spelling_is_canonical(text.spec_bytes());
    }
}

/// Reading a Seal: absence is absence, a read Seal is the one that was asked for, and
/// bytes that hold no such Seal are a contradiction, never absence.
pub proof fn law_read_seals_are_the_asked_for(
    identity: SealIdentity,
    body: &[u8],
    found: Result<Option<Seal>, TypedStoreError>,
    missing: Result<Option<Seal>, TypedStoreError>,
)
    requires
        call_ensures(read_seal, (&identity, Some(body)), found),
        call_ensures(read_seal, (&identity, None), missing),
    ensures
        missing matches Ok(None),
        found matches Ok(seal) ==> (seal matches Some(seal) && seal.partition == identity.partition
            && seal.generation == identity.generation),
        found matches Err(error) ==> error is Contradiction,
        found is Ok <==> crate::domain::seal_codec::spec_decode_seal(identity, body@) is Ok,
{
}

/// A head without a body, or whose body names no partition, is a contradiction.
pub proof fn law_heads_name_their_partition(
    listed: &str,
    body: &[u8],
    found: Result<PartitionId, TypedStoreError>,
    missing: Result<PartitionId, TypedStoreError>,
)
    requires
        call_ensures(head_partition, (listed, Some(body)), found),
        call_ensures(head_partition, (listed, None), missing),
    ensures
        missing matches Err(error) && error is Contradiction,
        found matches Ok(partition) ==> (
        crate::domain::archive::seal_archive_value(body@) matches Some(archive) && archive.0
            == partition.octets@) && partition.octets@ != seq![0u8; 16] && body@.len() <= 1_048_576,
        found matches Err(error) ==> error is Contradiction,
{
}

/// Reading a log object: absence is absence, what is read has the place that was asked
/// for, and bytes that hold no such object are a contradiction.
pub proof fn law_read_log_objects_are_the_asked_for(
    identity: WalIdentity,
    body: Option<Seq<u8>>,
    accepts: spec_fn(ProtocolText) -> bool,
)
    ensures
        ({
            let read = crate::engine::store::spec_read_wal(identity, body, accepts);
            &&& body is None ==> read == Ok::<Option<WalModel>, StoreErrorModel>(None)
            &&& body matches Some(bytes) ==> match crate::domain::wal_codec::spec_decode_wal(
                identity,
                bytes,
                accepts,
            ) {
                Ok(object) => read == Ok::<Option<WalModel>, StoreErrorModel>(Some(object)),
                Err(_) => read matches Err(StoreErrorModel::Contradiction(_)),
            }
        }),
{
}

/// Reading a selected table: it must be there, be as long as its Seal says, and hold rows
/// of the store that its key names; a store without rows is refused.
pub proof fn law_read_tables_are_the_selected(
    key: TableKey,
    table: TableRef,
    body: Option<Seq<u8>>,
    accepts: spec_fn(ProtocolText) -> bool,
)
    ensures
        ({
            let read = crate::engine::store::spec_read_table(key, table, body, accepts);
            &&& body is None ==> read is Err
            &&& body matches Some(bytes) ==> {
                &&& bytes.len() != table.object_bytes ==> read is Err
                &&& bytes.len() == table.object_bytes && key.object.store == StoreKind::Directory
                    ==> (read is Ok
                    <==> crate::domain::sst_directory::spec_decode_directory_sst(
                    key,
                    bytes,
                    accepts,
                ) is Ok)
                &&& bytes.len() == table.object_bytes && key.object.store == StoreKind::Ledger ==> (
                read is Ok <==> crate::domain::sst_ledger::spec_decode_ledger_sst(
                    key,
                    bytes,
                    accepts,
                ) is Ok)
            }
            &&& key.object.store == StoreKind::Tally || key.object.store == StoreKind::Annals
                ==> read is Err
            &&& read matches Err(error) ==> error is Contradiction
            &&& read matches Ok(RowsModel::Directory(rows)) ==> {
                &&& key.object.store == StoreKind::Directory
                &&& crate::domain::sst_directory::spec_decode_directory_sst(key, body->0, accepts)
                    == Ok::<_, crate::domain::sst::SstDecodeError>(rows)
            }
            &&& read matches Ok(RowsModel::Ledger(rows)) ==> {
                &&& key.object.store == StoreKind::Ledger
                &&& crate::domain::sst_ledger::spec_decode_ledger_sst(key, body->0, accepts)
                    == Ok::<_, crate::domain::sst::SstDecodeError>(rows)
            }
        }),
{
}

/// An observed log object is kept with the very bytes and the validator that were read,
/// and is of the place that was asked for, whatever the grammar says.
pub proof fn law_observations_keep_what_was_read<Grammar: Fn(ProtocolField<'_>) -> bool>(
    identity: WalIdentity,
    body: Option<(Vec<u8>, String)>,
    grammar: Grammar,
    observed: Result<Option<ObservedWal>, TypedStoreError>,
    object: WalObject,
    seen: ObservedWal,
)
    requires
        call_ensures(read_wal::<Grammar>, (&identity, body, &grammar), observed),
        call_ensures(ObservedWal::into_object, (seen,), object),
    ensures
        observed matches Ok(None) ==> body is None,
        observed matches Ok(Some(kept)) ==> {
            &&& body == Some((kept.bytes, kept.validator))
            &&& kept.object@.partition == identity.partition
            &&& kept.object@.batch == identity.batch
        },
        object == seen.object,
{
}

/// A read table has rows of the store that its reference names.
pub proof fn law_read_rows_are_of_their_store<Grammar: Fn(ProtocolField<'_>) -> bool>(
    partition: PartitionId,
    table: TableRef,
    body: Option<&[u8]>,
    grammar: Grammar,
    rows: Result<DecodedTable, TypedStoreError>,
)
    requires
        call_ensures(read_table::<Grammar>, (partition, &table, body, &grammar), rows),
    ensures
        rows matches Ok(rows) ==> (rows is Directory <==> table.object.store
            == StoreKind::Directory),
{
}

/// A RUN's observation authorizes the delete of just that RUN, as it was observed; a
/// FENCE's observation authorizes none.
pub proof fn law_only_runs_are_deleted(
    observed: ObservedWal,
    authorized: Result<AuthorizedWalRunDelete, WalDeleteRefusal>,
)
    requires
        call_ensures(ObservedWal::into_run_delete, (observed,), authorized),
    ensures
        match observed.object {
            WalObject::Run(run) => authorized matches Ok(delete) && delete.batch == run.batch
                && delete.validator == observed.validator,
            WalObject::Fence(fence) => authorized matches Err(WalDeleteRefusal::Fence { batch })
                && batch == fence.batch,
        },
{
}

/// Tables are deleted exactly when the source selects them and the successor does not.
pub proof fn law_dropped_tables_are_deleted(
    source: Seal,
    successor: Seal,
    deletes: Vec<AuthorizedTableDelete>,
    object: crate::domain::table::TableObjectId,
)
    requires
        call_ensures(targeted_table_deletes, (&source, &successor), deletes),
    ensures
        deletes@.contains(AuthorizedTableDelete { object }) <==> {
            let kept = successor@.tables();
            let had = source@.tables();
            &&& exists|i: int| 0 <= i < had.len() && (#[trigger] had[i]).object == object
            &&& forall|i: int| 0 <= i < kept.len() ==> (#[trigger] kept[i]).object != object
        },
{
    crate::engine::store::law_deletes_are_exactly_the_dropped_tables(
        source@.tables(),
        successor@.tables(),
        object,
    );
}

// Checkpoints

/// The tables' common result: the first table that is not established decides, a
/// cancellation abandons, and only the end of all tables establishes them.
pub proof fn law_tables_are_settled_together(
    event: TablesEvent,
    result: Option<TableEstablishment>,
)
    requires
        call_ensures(settle_tables, (event,), result),
    ensures
        result matches Some(TableEstablishment::Established) ==> event is Drained,
        event is Drained ==> result matches Some(TableEstablishment::Established),
        event is Cancelled ==> result matches Some(TableEstablishment::Abandoned),
        event matches TablesEvent::Settled(one) ==> if one is Established {
            result is None
        } else {
            result == Some(one)
        },
{
}

/// A checkpoint may be published exactly when all its tables are established and it was
/// prepared; it is published as it was prepared. Without that the attempt is abandoned or
/// a contradiction, and never ends the writer as fenced or poisoned.
pub proof fn law_publication_waits_for_everything(
    tables: TableEstablishment,
    preparation: Preparation,
    ready: Result<PreparedCheckpoint, CheckpointCompletion>,
)
    requires
        call_ensures(publishable, (tables, preparation), ready),
    ensures
        ready is Ok <==> tables is Established && (preparation matches Preparation::Finished(
            Ok(Some(_)),
        )),
        ready matches Ok(prepared) ==> preparation == Preparation::Finished(Ok(Some(prepared))),
        ready matches Err(completion) ==> completion is Abandoned || completion is Contradiction,
        preparation is Failed ==> (ready matches Err(completion) && completion is Contradiction),
        !(preparation is Failed) && tables is Abandoned ==> (ready matches Err(completion)
            && completion is Abandoned),
        !(preparation is Failed) && tables is Contradiction ==> (ready matches Err(CheckpointCompletion::Contradiction { detail }) && detail@
            == tables->Contradiction_detail@),
        tables is Established && (preparation matches Preparation::Finished(Ok(None))) ==> (ready
            matches Err(completion) && completion is Abandoned),
{
}

/// Only this writer's own create of the successor Seal installs the checkpoint, with the
/// Seals and the snapshot that were prepared; another's fences the writer, an unresolved
/// or failed one poisons it.
pub proof fn law_publication_installs_by_authorship(
    prepared: PreparedCheckpoint,
    publication: Result<SealPublication, TypedStoreError>,
    completion: CheckpointCompletion,
)
    requires
        call_ensures(complete_publication, (prepared, publication), completion),
    ensures
        match publication {
            Ok(SealPublication::Authored) => completion matches CheckpointCompletion::Installed(
                install,
            ) && install.source == prepared.source && install.successor == prepared.successor
                && install.snapshot == prepared.snapshot,
            Ok(SealPublication::NoAuthority) => completion is Fenced,
            Ok(SealPublication::Unresolved) => completion is Poisoned,
            Err(TypedStoreError::Retryable { detail: cause }) => completion
                matches CheckpointCompletion::Poisoned { detail } && detail@ == cause@,
            Err(TypedStoreError::Rejected { detail: cause }) => completion
                matches CheckpointCompletion::Poisoned { detail } && detail@ == cause@,
            Err(TypedStoreError::Contradiction { detail: cause }) => completion
                matches CheckpointCompletion::Contradiction { detail } && detail@ == cause@,
        },
{
}

// Pacing and room

/// A flush is due under any one pressure and under no other; the buffer is one byte to four
/// mebibytes, and setting one option keeps the other. Usually flushes are a quarter of a
/// second apart and the buffer is as large as it can be.
pub proof fn law_pacing_options(
    options: Options,
    pressure: FlushPressure,
    due: bool,
    bytes: usize,
    sized: Result<Options, OptionsError>,
    span: std::time::Duration,
    spaced: Options,
    usual: Options,
)
    requires
        call_ensures(Options::default, (), usual),
        call_ensures(Options::is_flush_due, (options, pressure), due),
        call_ensures(Options::with_flush_buffer_bytes, (options, bytes), sized),
        call_ensures(Options::with_min_flush_interval, (options, span), spaced),
    ensures
        pressure.interval_elapsed || pressure.at_capacity || pressure.draining ==> due,
        !pressure.interval_elapsed && !pressure.at_capacity && !pressure.draining ==> (due
            <==> pressure.buffered_bytes >= options.flush_buffer_bytes),
        sized is Ok <==> 1 <= bytes <= 4_194_304,
        sized matches Ok(made) ==> made.flush_buffer_bytes == bytes && made.flush_interval_min
            == options.flush_interval_min,
        sized matches Err(OptionsError::FlushBufferBytesZero) ==> bytes == 0,
        sized matches Err(OptionsError::FlushBufferBytesOverMax { bytes: given }) ==> given == bytes
            && bytes > 4_194_304,
        usual.flush_interval_min == crate::engine::options::millis_span(250),
        usual.flush_buffer_bytes == 4_194_304,
        spaced.flush_interval_min == span,
        spaced.flush_buffer_bytes == options.flush_buffer_bytes,
{
}

/// There is room for a RUN exactly when it is after the cut, a coordinate is left behind
/// it, and that coordinate is at most a thousand and twenty-four after the cut.
pub proof fn law_room_reserves_the_next_fence(cut: Option<BatchId>, proposed: BatchId, room: bool)
    requires
        call_ensures(decide_suffix_room, (cut, proposed), room),
    ensures
        ({
            let covered = match cut {
                Some(batch) => batch.value as int,
                None => 0,
            };
            room <==> proposed.value < u64::MAX && covered < proposed.value && proposed.value + 1
                - covered <= 1024
        }),
{
}

/// Only contradictions that a command can cause are refusals, each under its own name.
pub proof fn law_contradictions_become_refusals(
    contradiction: FoldContradiction,
    refusal: Option<AdmissionRefusal>,
)
    requires
        call_ensures(FoldContradiction::admission_refusal, (contradiction,), refusal),
    ensures
        refusal == Some(AdmissionRefusal::PathOccupied) <==> contradiction is PathOccupied,
        refusal == Some(AdmissionRefusal::PathCapacityExhausted) <==> contradiction
            is PathCapacityExhausted,
        refusal == Some(AdmissionRefusal::PathNotLive) <==> contradiction is PathNotLive,
        refusal != Some(AdmissionRefusal::Overloaded),
{
}

} // verus!
