//! What plain values are: coordinates, keys, partitions, frames and sizes.

use vstd::prelude::*;

use crate::domain::archive::{EncodeError, EncodedBytesOverMax};
use crate::domain::candidate::{
    EncodedAuthoritySeal, EncodedGenesisSeal, EncodedTable, EncodedWal, SealCandidateError,
};
use crate::domain::coordinate::{
    BatchId, CoordinateExhausted, OwnerToken, SealGeneration, StreamUid,
};
use crate::domain::directory::{DirectoryEntry, DirectoryKey};
use crate::domain::envelope::{
    decode_body_bound, decode_frame, encode_frame, enforce_encode_bound, ObjectKind,
};
use crate::domain::ledger::{LedgerCell, LedgerRecord, LedgerRecordModel, StreamRecord};
use crate::domain::ledger_codec::encode_ledger_record;
use crate::domain::partition::{PartitionId, PartitionIdError};
use crate::domain::protocol::{ExpiryPolicy, ProtocolText, StreamContentType, StreamLifecycle};
use crate::domain::seal::{Seal, SealIdentity, TreeVersion};
use crate::domain::seal_codec::{decode_seal_partition, encode_seal};
use crate::domain::spelling::{SealKey, SealNamespace, TableKey, WalKey, WalNamespace};
use crate::domain::sst::{
    check_decode_bound, check_encode_rows, decode_fresh, encode_fresh, SstDecodeError,
    SstEncodeError,
};
use crate::domain::table::{FreshIdentity, StoreKind};
use crate::domain::wal::{
    BoundedNonEmptyVec, BoundedNonEmptyVecError, OperationFact, WalBody, WalIdentity, WalObject,
};
use crate::domain::wal_codec::{decode_lifecycle, encode_expiry, encode_lifecycle, encode_wal};

verus! {

// Coordinates

/// The first generation is number one, the next is one more, and the last has none; an
/// owner is its generation.
pub proof fn law_generations_count_up(
    generation: SealGeneration,
    first: SealGeneration,
    next: Result<SealGeneration, CoordinateExhausted>,
    owner: OwnerToken,
)
    requires
        call_ensures(SealGeneration::genesis, (), first),
        call_ensures(SealGeneration::successor, (generation,), next),
        call_ensures(OwnerToken::from, (generation,), owner),
    ensures
        first.value == 1,
        next is Ok <==> generation.value < u64::MAX,
        next matches Ok(later) ==> later.value == generation.value + 1,
        owner.generation == generation,
{
}

/// The next coordinate is one more, and the last has none.
pub proof fn law_coordinates_count_up(batch: BatchId, next: Result<BatchId, CoordinateExhausted>)
    requires
        call_ensures(BatchId::successor, (batch,), next),
    ensures
        next is Ok <==> batch.value < u64::MAX,
        next matches Ok(later) ==> later.value == batch.value + 1,
{
}

// Keys and records

/// A key is its bytes: it fits with at most five hundred and twelve bytes of UTF-8, is
/// before another where at the first difference its byte is less, or it ends, and is the
/// same where all bytes are.
pub proof fn law_keys_are_their_bytes(
    key: DirectoryKey,
    other: DirectoryKey,
    fits: bool,
    before: bool,
    same: bool,
)
    requires
        call_ensures(DirectoryKey::is_fitting, (&key,), fits),
        call_ensures(DirectoryKey::is_before, (&key, &other), before),
        call_ensures(DirectoryKey::is_same, (&key, &other), same),
    ensures
        key@ == key.bytes@,
        fits <==> key.bytes@.len() <= 512 && vstd::utf8::valid_utf8(key.bytes@),
        same <==> key.bytes@ == other.bytes@,
        before <==> exists|at: int|
            #![trigger key.bytes@.take(at)]
            0 <= at <= key.bytes@.len() && at < other.bytes@.len() && key.bytes@.take(at)
                == other.bytes@.take(at) && (at == key.bytes@.len() || key.bytes@[at]
                < other.bytes@[at]),
{
    let left = key.bytes@;
    let right = other.bytes@;
    if crate::domain::text::bytes_less(left, right) {
        let at = choose|at: int| crate::domain::text::parts_at(left, right, at);
        assert(left.take(at) =~= right.take(at));
    }
    if exists|at: int|
        #![trigger left.take(at)]
        0 <= at <= left.len() && at < right.len() && left.take(at) == right.take(at) && (at
            == left.len() || left[at] < right[at]) {
        let at = choose|at: int|
            #![trigger left.take(at)]
            0 <= at <= left.len() && at < right.len() && left.take(at) == right.take(at) && (at
                == left.len() || left[at] < right[at]);
        assert forall|i: int| 0 <= i < at implies left[i] == right[i] by {
            assert(left.take(at)[i] == right.take(at)[i]);
        }
        assert(crate::domain::text::parts_at(left, right, at));
    }
}

/// An entry's stream is the one that it names, live or not.
pub proof fn law_entries_name_their_stream(entry: DirectoryEntry, uid: StreamUid)
    requires
        call_ensures(DirectoryEntry::uid, (entry,), uid),
    ensures
        match entry {
            DirectoryEntry::Live(named) => uid == named,
            DirectoryEntry::Tombstone(named) => uid == named,
        },
{
}

/// Records are the same exactly when all their fields are, and say their fields.
pub proof fn law_records_are_their_fields(left: StreamRecord, right: StreamRecord, same: bool)
    requires
        call_ensures(StreamRecord::is_same, (&left, &right), same),
    ensures
        same <==> left.content_type.text@ == right.content_type.text@ && left.expiry
            == right.expiry && left.lifecycle == right.lifecycle && left.created_at
            == right.created_at,
        left@.content_type == left.content_type.text@,
        left@.expiry == left.expiry,
        left@.lifecycle == left.lifecycle,
        left@.created_at == left.created_at,
{
}

/// A record is what it is made of, and each part reads as it was given.
pub proof fn law_records_keep_what_they_are_given(
    content_type: StreamContentType,
    expiry: ExpiryPolicy,
    lifecycle: StreamLifecycle,
    created_at: BatchId,
    record: StreamRecord,
    fits: bool,
)
    requires
        call_ensures(StreamRecord::new, (content_type, expiry, lifecycle, created_at), record),
        call_ensures(StreamContentType::is_fitting, (&content_type,), fits),
    ensures
        record.content_type == content_type,
        record.expiry == expiry,
        record.lifecycle == lifecycle,
        record.created_at == created_at,
        fits <==> vstd::utf8::encode_utf8(content_type.text@).len() <= 256,
{
}

/// A self-contained record says its stream and what it knows of it.
pub proof fn law_ledger_records_say_their_fields(record: LedgerRecord)
    ensures
        match record {
            LedgerRecord::Live { uid, record: live } => record@ == (LedgerRecordModel::Live {
                uid,
                record: live@,
            }),
            LedgerRecord::Tombstone(tombstone) => record@ == (LedgerRecordModel::Tombstone {
                uid: tombstone.uid,
            }),
        },
{
}

// Partitions

/// A partition is any octets but sixteen zeros; two are the same exactly when their octets
/// are; and a text names one exactly when it is the partition's spelling, so the spelling
/// is its only text.
pub proof fn law_partitions_are_their_octets(
    octets: [u8; 16],
    made: Result<PartitionId, PartitionIdError>,
    left: PartitionId,
    right: PartitionId,
    same: bool,
    text: &[u8],
    parsed: Result<PartitionId, PartitionIdError>,
)
    requires
        call_ensures(PartitionId::try_from, (octets,), made),
        call_ensures(PartitionId::is_same, (&left, &right), same),
        call_ensures(PartitionId::parse_bytes, (text,), parsed),
    ensures
        octets@ == seq![0u8; 16] ==> made == Err::<PartitionId, PartitionIdError>(
            PartitionIdError::Nil,
        ),
        octets@ != seq![0u8; 16] ==> (made matches Ok(id) && id.octets == octets),
        same <==> left.octets@ == right.octets@,
        parsed matches Ok(id) ==> text@ == crate::domain::partition::uuid_text(id.octets@)
            && id.octets@ != seq![0u8; 16],
        left.octets@ != seq![0u8; 16] && text@ == crate::domain::partition::uuid_text(left.octets@)
            ==> parsed == Ok::<PartitionId, PartitionIdError>(left),
        (forall|id: PartitionId|
            text@ != crate::domain::partition::uuid_text(#[trigger] id.octets@)) ==> parsed == Err::<
            PartitionId,
            PartitionIdError,
        >(PartitionIdError::Malformed),
{
    left.law_spelling_round_trips();
    if left.octets@ == right.octets@ {
        assert(left.octets =~= right.octets);
    }
}

/// A partition's spelling: thirty-six characters, hyphens after the eighth, twelfth,
/// sixteenth and twentieth digit, and for each octet its two lowercase hexadecimal digits.
pub proof fn law_partitions_are_spelled_in_hexadecimal(partition: PartitionId, k: int)
    requires
        0 <= k < 16,
    ensures
        ({
            let text = crate::domain::partition::uuid_text(partition.octets@);
            let octet = partition.octets@[k] as int;
            let place = 2 * k + (if k < 4 {
                0int
            } else if k < 6 {
                1
            } else if k < 8 {
                2
            } else if k < 10 {
                3
            } else {
                4
            });
            &&& text.len() == 36
            &&& text[8] == 45 && text[13] == 45 && text[18] == 45 && text[23] == 45
            &&& text[place] == (if octet / 16 < 10 {
                48 + octet / 16
            } else {
                87 + octet / 16
            })
            &&& text[place + 1] == (if octet % 16 < 10 {
                48 + octet % 16
            } else {
                87 + octet % 16
            })
        }),
{
}

// Identities

/// Identities are their parts, and the same exactly when both parts are; keys are of the
/// identity or the partition that they are made of.
pub proof fn law_identities_are_their_parts(
    seal: SealIdentity,
    other: SealIdentity,
    seals: bool,
    log: WalIdentity,
    another: WalIdentity,
    logs: bool,
)
    requires
        call_ensures(SealIdentity::is_same, (&seal, &other), seals),
        call_ensures(WalIdentity::is_same, (&log, &another), logs),
    ensures
        seals <==> seal.partition == other.partition && seal.generation == other.generation,
        logs <==> log.partition == another.partition && log.batch == another.batch,
{
}

/// A key is of what it is made of.
pub proof fn law_keys_are_of_their_identity(
    partition: PartitionId,
    seal: SealIdentity,
    log: WalIdentity,
    seals: SealNamespace,
    logs: WalNamespace,
    seal_key: SealKey,
    log_key: WalKey,
)
    requires
        call_ensures(SealNamespace::from, (partition,), seals),
        call_ensures(WalNamespace::from, (partition,), logs),
        call_ensures(SealKey::from, (seal,), seal_key),
        call_ensures(WalKey::from, (log,), log_key),
    ensures
        seals.partition == partition,
        logs.partition == partition,
        seal_key.identity == seal,
        log_key.identity == log,
{
}

// Log objects

/// A RUN's facts are one to four thousand and ninety-six, kept as they are given.
pub proof fn law_runs_have_some_facts(
    facts: Vec<OperationFact>,
    bounded: Result<BoundedNonEmptyVec<OperationFact>, BoundedNonEmptyVecError>,
)
    requires
        call_ensures(BoundedNonEmptyVec::<OperationFact>::try_from, (facts,), bounded),
    ensures
        facts@.len() == 0 ==> bounded == Err::<
            BoundedNonEmptyVec<OperationFact>,
            BoundedNonEmptyVecError,
        >(BoundedNonEmptyVecError::Empty),
        facts@.len() > 4096 ==> (bounded matches Err(BoundedNonEmptyVecError::OverMax {
            facts_actual,
        }) && facts_actual == facts@.len()),
        1 <= facts@.len() <= 4096 ==> (bounded matches Ok(kept) && kept.values == facts),
{
    assert(facts@.len() == facts.len());
}

/// A log object is of the place, the owner and the body that it is made of.
pub proof fn law_log_objects_are_made_of_their_parts(
    partition: PartitionId,
    batch: BatchId,
    owner: OwnerToken,
    body: WalBody,
    object: WalObject,
    identity: WalIdentity,
    held: OwnerToken,
)
    requires
        call_ensures(WalObject::new, (partition, batch, owner, body), object),
        call_ensures(WalObject::identity, (&object,), identity),
        call_ensures(WalObject::owner, (&object,), held),
    ensures
        object@.partition == partition && identity.partition == partition,
        object@.batch == batch && identity.batch == batch,
        object@.owner == owner && held == owner,
        body is Fence <==> object@.facts is None,
        body matches WalBody::Run(facts) ==> object@.facts == Some(
            crate::domain::wal::facts_model(facts.values@),
        ),
{
}

/// The estimate of one fact is a hundred and twenty-eight bytes and its texts, as far as a
/// machine word goes.
pub proof fn law_facts_are_estimated_by_their_texts(fact: OperationFact, bytes: usize)
    requires
        call_ensures(OperationFact::estimated_encoded_bytes, (&fact,), bytes),
    ensures
        ({
            let texts = match fact {
                OperationFact::StreamCreated { path, content_type, .. } => path.bytes@.len()
                    + vstd::utf8::encode_utf8(content_type.text@).len(),
                OperationFact::StreamClosed { path, .. } => path.bytes@.len(),
                OperationFact::StreamDeleted { path, .. } => path.bytes@.len(),
            };
            &&& 128 + texts <= usize::MAX ==> bytes == 128 + texts
            &&& 128 + texts > usize::MAX ==> bytes == usize::MAX
        }),
{
}

// Encoding

/// A log object is encoded unless its bytes exceed four mebibytes; then they are read back
/// as just its values.
pub proof fn law_log_objects_are_encoded(
    object: WalObject,
    encoded: Result<Vec<u8>, EncodeError>,
    candidate: Result<EncodedWal, EncodeError>,
)
    requires
        call_ensures(encode_wal, (&object,), encoded),
        call_ensures(EncodedWal::new, (&object,), candidate),
    ensures
        encoded matches Ok(bytes) ==> bytes@.len() <= 4_194_304
            && crate::domain::wal_codec::stored_wal_value(bytes@) == Some(
            crate::domain::wal_codec::wal_archive(object@),
        ),
        encoded matches Err(error) ==> error == (EncodeError::EncodedBytesOverMax {
            bytes_max: 4_194_304,
        }),
        candidate matches Ok(made) ==> made.partition == object@.partition && made.batch
            == object@.batch && crate::domain::wal_codec::stored_wal_value(
            crate::domain::candidate::shared_bytes(made.bytes),
        ) == Some(crate::domain::wal_codec::wal_archive(object@)),
        object@.facts matches Some(facts) && 128 + crate::domain::wal::facts_estimate(facts)
            <= 4_194_304 ==> encoded is Ok && candidate is Ok,
        object@.facts is None ==> encoded is Ok && candidate is Ok,
{
}

/// A Seal is encoded unless its bytes exceed one mebibyte; only the first generation is a
/// genesis candidate, and only a later one grants authority.
pub proof fn law_seals_are_encoded(
    seal: Seal,
    encoded: Result<Vec<u8>, EncodeError>,
    genesis: Result<EncodedGenesisSeal, SealCandidateError>,
    authority: Result<EncodedAuthoritySeal, SealCandidateError>,
)
    requires
        call_ensures(encode_seal, (&seal,), encoded),
        call_ensures(EncodedGenesisSeal::new, (&seal,), genesis),
        call_ensures(EncodedAuthoritySeal::new, (&seal,), authority),
    ensures
        encoded matches Ok(bytes) ==> bytes@.len() <= 1_048_576
            && crate::domain::archive::seal_archive_value(bytes@) == Some(
            crate::domain::seal_codec::seal_archive(seal@),
        ),
        encoded matches Err(error) ==> error == (EncodeError::EncodedBytesOverMax {
            bytes_max: 1_048_576,
        }),
        seal.generation.value != 1 ==> genesis == Err::<EncodedGenesisSeal, SealCandidateError>(
            SealCandidateError::NotGenesis,
        ),
        seal.generation.value == 1 ==> authority == Err::<EncodedAuthoritySeal, SealCandidateError>(
            SealCandidateError::NotAuthority,
        ),
        genesis matches Ok(made) ==> made.encoded.seal@ == seal@
            && crate::domain::archive::seal_archive_value(
            crate::domain::candidate::shared_bytes(made.encoded.bytes),
        ) == Some(crate::domain::seal_codec::seal_archive(seal@)),
        authority matches Ok(made) ==> made.encoded.seal@ == seal@
            && crate::domain::archive::seal_archive_value(
            crate::domain::candidate::shared_bytes(made.encoded.bytes),
        ) == Some(crate::domain::seal_codec::seal_archive(seal@)),
        ({
            let size = 57 + 8 * (seal.directory@.len() + seal.ledger@.len()) + 37
                * seal@.tables().len();
            size <= 1_048_576 ==> encoded is Ok && (genesis is Ok <==> seal.generation.value == 1)
                && (authority is Ok <==> seal.generation.value != 1)
        }),
{
}

/// The partition that Seal bytes name is the archived one, and never the nil one.
pub proof fn law_seal_bytes_name_their_partition(
    bytes: &[u8],
    partition: Result<PartitionId, crate::domain::archive::DecodeError>,
)
    requires
        call_ensures(decode_seal_partition, (bytes,), partition),
    ensures
        partition matches Ok(named) ==> bytes@.len() <= 1_048_576 && named.octets@ != seq![0u8; 16]
            && (crate::domain::archive::seal_archive_value(bytes@) matches Some(archive)
            && archive.0 == named.octets@),
        bytes@.len() > 1_048_576 ==> partition is Err,
{
}

/// Tables are encoded under a key of their own store, of at least one row, in strict
/// order; the reference names the key's object and the bytes' length.
pub proof fn law_tables_are_encoded(
    key: TableKey,
    entries: &[(DirectoryKey, DirectoryEntry)],
    cells: &[(StreamUid, LedgerCell)],
    directory: Result<EncodedTable, SstEncodeError>,
    ledger: Result<EncodedTable, SstEncodeError>,
)
    requires
        call_ensures(EncodedTable::encode_directory, (key, entries), directory),
        call_ensures(EncodedTable::encode_ledger, (key, cells), ledger),
    ensures
        key.object.store != StoreKind::Directory ==> directory == Err::<
            EncodedTable,
            SstEncodeError,
        >(SstEncodeError::StoreMismatch),
        key.object.store != StoreKind::Ledger ==> ledger == Err::<EncodedTable, SstEncodeError>(
            SstEncodeError::StoreMismatch,
        ),
        entries@.len() == 0 ==> directory is Err,
        cells@.len() == 0 ==> ledger is Err,
        directory matches Ok(table) ==> {
            &&& table.key == key
            &&& table.table.object == key.object
            &&& table.table.object_bytes == crate::domain::candidate::shared_bytes(
                table.bytes,
            ).len()
            &&& crate::domain::archive::directory_archive_value(
                crate::domain::candidate::shared_bytes(table.bytes),
            ) == Some(
                crate::domain::sst_directory::directory_archive(
                    key,
                    crate::domain::sst_directory::directory_rows(entries@),
                ),
            )
        },
        ledger matches Ok(table) ==> {
            &&& table.key == key
            &&& table.table.object == key.object
            &&& table.table.object_bytes == crate::domain::candidate::shared_bytes(
                table.bytes,
            ).len()
            &&& crate::domain::archive::ledger_archive_value(
                crate::domain::candidate::shared_bytes(table.bytes),
            ) == Some(
                crate::domain::sst_ledger::ledger_archive(
                    key,
                    crate::domain::sst_ledger::ledger_rows(cells@),
                ),
            )
        },
{
}

/// Table rows say their keys and values, in order.
pub proof fn law_table_rows_say_their_fields(
    entries: Seq<(DirectoryKey, DirectoryEntry)>,
    cells: Seq<(StreamUid, LedgerCell)>,
    i: int,
)
    ensures
        crate::domain::sst_directory::directory_rows(entries).len() == entries.len(),
        crate::domain::sst_ledger::ledger_rows(cells).len() == cells.len(),
        0 <= i < entries.len() ==> crate::domain::sst_directory::directory_rows(entries)[i] == (
            entries[i].0.bytes@,
            entries[i].1,
        ),
        0 <= i < cells.len() ==> crate::domain::sst_ledger::ledger_rows(cells)[i] == (
            cells[i].0,
            cells[i].1@,
        ),
{
}

/// Numbers of policies and lifecycles in archives.
pub proof fn law_policies_are_numbered(
    expiry: ExpiryPolicy,
    raw: (u8, u128),
    lifecycle: StreamLifecycle,
    tag: u8,
    back: StreamLifecycle,
)
    requires
        call_ensures(encode_expiry, (expiry,), raw),
        call_ensures(encode_lifecycle, (lifecycle,), tag),
        call_ensures(decode_lifecycle, (tag,), back),
    ensures
        match expiry {
            ExpiryPolicy::Never => raw.0 == 0,
            ExpiryPolicy::SlidingTtl(ttl) => raw.0 == 1 && raw.1 == ttl.seconds,
            ExpiryPolicy::AbsoluteExpiry(at) => raw.0 == 2 && (at.unix_nanoseconds >= 0 ==> raw.1
                == at.unix_nanoseconds) && (at.unix_nanoseconds < 0 ==> raw.1
                == 0x1_0000_0000_0000_0000_0000_0000_0000_0000 + at.unix_nanoseconds),
        },
        tag == (if lifecycle == StreamLifecycle::Open {
            0u8
        } else {
            1u8
        }),
        back == lifecycle,
{
}

/// A fresh identity is archived as its numbers and read back only where its owner claimed
/// before its birth.
pub proof fn law_fresh_identities_are_numbered(
    fresh: FreshIdentity,
    raw: (u64, u64, u64, u32),
    numbers: (u64, u64, u64, u32),
    read: Option<FreshIdentity>,
)
    requires
        numbers.0 != 0,
        numbers.1 != 0,
        call_ensures(encode_fresh, (fresh,), raw),
        call_ensures(decode_fresh, (numbers,), read),
    ensures
        raw.0 == fresh.birth_generation.value,
        raw.1 == fresh.attempt.owner_claim.value,
        raw.2 == fresh.attempt.local_counter,
        raw.3 == fresh.ordinal,
        read is Some <==> numbers.1 < numbers.0,
        read matches Some(found) ==> found.birth_generation.value == numbers.0
            && found.attempt.owner_claim.value == numbers.1 && found.attempt.local_counter
            == numbers.2 && found.ordinal == numbers.3,
{
}

// Bounds

/// Lengths are checked against the named bound and reported with it.
pub proof fn law_lengths_are_bounded(
    bytes: &[u8],
    bytes_max: usize,
    checked: Result<(), EncodedBytesOverMax>,
    framed: Result<(), crate::domain::envelope::DecodeError>,
    table: Result<(), SstDecodeError>,
    rows: usize,
    row_bytes: usize,
    fitting: Result<(), SstEncodeError>,
)
    requires
        call_ensures(crate::domain::archive::decode_bound, (bytes, bytes_max), checked),
        call_ensures(decode_body_bound, (bytes, bytes_max), framed),
        call_ensures(check_decode_bound, (bytes,), table),
        call_ensures(check_encode_rows, (rows, row_bytes), fitting),
    ensures
        checked is Ok <==> bytes@.len() <= bytes_max,
        checked matches Err(over) ==> over.bytes_max == bytes_max && over.bytes_actual
            == bytes@.len(),
        framed is Ok <==> bytes@.len() <= bytes_max,
        table is Ok <==> bytes@.len() <= 134_217_728,
        fitting is Ok <==> rows <= 10_000_000 && rows * row_bytes <= 134_217_728,
{
    assert(bytes@.len() == bytes.len());
}

/// A frame is made where it fits, as one `STRM` frame of the kind, the version and the
/// body, and is read back as that body under the same kind and version only.
#[verifier::rlimit(50)]
pub proof fn law_frames_are_made_and_read(
    kind: ObjectKind,
    version: u8,
    body: &[u8],
    bytes_max: usize,
    frame: Result<Vec<u8>, crate::domain::envelope::EncodeError>,
    other_kind: ObjectKind,
    other_version: u8,
    bytes: &[u8],
    read: Result<&[u8], crate::domain::envelope::DecodeError>,
)
    requires
        body@.len() + 10 <= usize::MAX,
        call_ensures(encode_frame, (kind, version, body, bytes_max), frame),
        frame matches Ok(made) ==> bytes@ == made@,
        call_ensures(decode_frame, (other_kind, other_version, bytes, bytes_max), read),
    ensures
        frame is Ok <==> body@.len() + 10 <= bytes_max,
        frame matches Ok(made) ==> {
            &&& made@.len() == body@.len() + 10
            &&& other_kind == kind && other_version == version ==> (read matches Ok(found) && found@
                == body@)
            &&& other_kind != kind ==> (read
                matches Err(crate::domain::envelope::DecodeError::ObjectKindMismatch { .. }))
            &&& other_kind == kind && other_version != version ==> (read
                matches Err(crate::domain::envelope::DecodeError::UnsupportedVersion { observed })
                && observed == version)
        },
{
    if let Ok(made) = frame {
        crate::domain::object_laws::law_frames_are_laid_out(kind, version, body@);
        crate::domain::envelope::law_frame_round_trips(kind, version, body@, bytes_max);
        lemma_frame_header(kind, version, body@);
    }
}

proof fn lemma_frame_header(kind: ObjectKind, version: u8, body: Seq<u8>)
    ensures
        ({
            let frame = crate::domain::envelope::frame_bytes(kind, version, body);
            let covered = crate::domain::envelope::frame_covered(kind, version, body);
            &&& frame.take(frame.len() - 4) == covered
            &&& frame.take(4) == crate::domain::envelope::magic()
            &&& crate::domain::envelope::big_endian_value(frame.skip(frame.len() - 4))
                == crate::domain::envelope::crc32c_value(covered)
        }),
{
    let frame = crate::domain::envelope::frame_bytes(kind, version, body);
    let covered = crate::domain::envelope::frame_covered(kind, version, body);
    let checksum = crate::domain::envelope::crc32c_value(covered);
    assert(frame.take(frame.len() - 4) =~= covered);
    assert(frame.skip(frame.len() - 4) =~= crate::domain::envelope::big_endian(checksum));
    assert(frame.take(4) =~= crate::domain::envelope::magic());
}

/// Nothing but the frame of a body is read as that body: the whole header and the checksum
/// are checked.
#[verifier::rlimit(50)]
pub proof fn law_only_frames_are_read(
    kind: ObjectKind,
    version: u8,
    bytes: Seq<u8>,
    bytes_max: usize,
)
    ensures
        crate::domain::envelope::spec_decode_frame(kind, version, bytes, bytes_max) matches Ok(body)
            ==> bytes.len() <= bytes_max && bytes == crate::domain::envelope::frame_bytes(
            kind,
            version,
            body,
        ),
        bytes.len() <= bytes_max && bytes.len() < 10
            ==> crate::domain::envelope::spec_decode_frame(kind, version, bytes, bytes_max) is Err,
{
    if let Ok(body) = crate::domain::envelope::spec_decode_frame(kind, version, bytes, bytes_max) {
        let covered = bytes.take(bytes.len() - 4);
        let sum = bytes.skip(bytes.len() - 4);
        assert(bytes.take(4)[0] == bytes[0] && bytes.take(4)[1] == bytes[1] && bytes.take(4)[2]
            == bytes[2] && bytes.take(4)[3] == bytes[3]);
        assert(covered =~= crate::domain::envelope::frame_covered(kind, version, body));
        lemma_octets_of_value(sum);
        assert(bytes =~= covered + sum);
    }
}

/// Four octets are spelled back by the number that they spell.
proof fn lemma_octets_of_value(octets: Seq<u8>)
    requires
        octets.len() == 4,
    ensures
        crate::domain::envelope::big_endian(crate::domain::envelope::big_endian_value(octets))
            == octets,
{
    let (a, b, c, d) = (octets[0] as int, octets[1] as int, octets[2] as int, octets[3] as int);
    let value = a * 0x100_0000 + b * 0x1_0000 + c * 0x100 + d;
    lemma_quotients(a, b, c, d);
    assert(crate::domain::envelope::big_endian_value(octets) == value);
    assert(crate::domain::envelope::big_endian(crate::domain::envelope::big_endian_value(octets))
        =~= octets);
}

proof fn lemma_quotients(a: int, b: int, c: int, d: int)
    requires
        0 <= a < 256,
        0 <= b < 256,
        0 <= c < 256,
        0 <= d < 256,
    ensures
        ({
            let value = a * 0x100_0000 + b * 0x1_0000 + c * 0x100 + d;
            &&& 0 <= value <= u32::MAX
            &&& value / 0x100_0000 == a
            &&& value / 0x1_0000 % 0x100 == b
            &&& value / 0x100 % 0x100 == c
            &&& value % 0x100 == d
        }),
{
    let value = a * 0x100_0000 + b * 0x1_0000 + c * 0x100 + d;
    assert(value / 0x100 == a * 0x1_0000 + b * 0x100 + c);
    assert(value / 0x1_0000 == a * 0x100 + b);
}

/// A self-contained record is read only within its bound, of a stream that is not zero, and
/// where it is live only with a creation that is not zero and fields that the grammar
/// accepts.
pub proof fn law_ledger_record_bytes_are_read_with_care(
    bytes: Seq<u8>,
    bytes_max: usize,
    accepts: spec_fn(ProtocolText) -> bool,
)
    ensures
        crate::domain::ledger_codec::spec_decode_ledger_record(bytes, bytes_max, accepts) matches Ok(
            record,
        ) ==> {
            &&& bytes.len() <= bytes_max
            &&& match record {
                LedgerRecordModel::Tombstone { uid } => uid.value != 0,
                LedgerRecordModel::Live { uid, record: live } => {
                    &&& uid.value != 0
                    &&& live.created_at.value != 0
                    &&& vstd::utf8::encode_utf8(live.content_type).len() <= 256
                    &&& accepts(ProtocolText::ContentType(live.content_type))
                    &&& live.expiry matches ExpiryPolicy::SlidingTtl(ttl) ==> ttl.seconds != 0
                    &&& live.expiry matches ExpiryPolicy::AbsoluteExpiry(at) ==> accepts(
                        ProtocolText::ExpiresAt(at.unix_nanoseconds),
                    )
                },
            }
        },
{
}

/// Bytes leave only within their bound, unchanged; and a self-contained record's bytes are
/// its spelling within its bound.
pub proof fn law_bytes_leave_within_their_bound(
    bytes: Vec<u8>,
    bytes_max: usize,
    bounded: Result<Vec<u8>, crate::domain::envelope::EncodeError>,
    record: LedgerRecord,
    spelled: Result<Vec<u8>, crate::domain::envelope::EncodeError>,
)
    requires
        call_ensures(enforce_encode_bound, (bytes, bytes_max), bounded),
        call_ensures(encode_ledger_record, (&record, bytes_max), spelled),
    ensures
        bounded is Ok <==> bytes@.len() <= bytes_max,
        bounded matches Ok(kept) ==> kept == bytes,
        spelled matches Ok(made) ==> made@.len() <= bytes_max && made@
            == crate::domain::ledger_codec::ledger_record_bytes(record@),
        spelled is Err ==> crate::domain::ledger_codec::ledger_record_bytes(record@).len()
            > bytes_max,
{
}

/// A self-contained record is spelled as a variant, 0 for a live stream and 1 for a
/// tombstone, and its stream; a live one then has its content type behind its length, a
/// variant for its expiry, 0 for none, 1 for a time to live and 2 for an instant, with
/// the payload, a byte for its lifecycle, 0 for open and 1 for closed, and its creation.
#[verifier::rlimit(50)]
pub proof fn law_ledger_records_are_spelled(record: LedgerRecordModel)
    ensures
        match record {
            LedgerRecordModel::Tombstone { uid } => crate::domain::ledger_codec::ledger_record_bytes(
                record,
            ) == seq![1u8] + crate::domain::ledger_codec::varint(uid.value as nat),
            LedgerRecordModel::Live { uid, record: live } => {
                let kind = vstd::utf8::encode_utf8(live.content_type);
                let expiry = match live.expiry {
                    ExpiryPolicy::Never => seq![0u8],
                    ExpiryPolicy::SlidingTtl(ttl) => seq![1u8]
                        + crate::domain::ledger_codec::varint(ttl.seconds as nat),
                    ExpiryPolicy::AbsoluteExpiry(at) => seq![2u8]
                        + crate::domain::ledger_codec::varint(
                        (if at.unix_nanoseconds >= 0 {
                            2 * at.unix_nanoseconds
                        } else {
                            -2 * at.unix_nanoseconds - 1
                        }) as nat,
                    ),
                };
                let closed = if live.lifecycle == StreamLifecycle::Closed {
                    1u8
                } else {
                    0u8
                };
                crate::domain::ledger_codec::ledger_record_bytes(record) == seq![0u8]
                    + crate::domain::ledger_codec::varint(uid.value as nat)
                    + crate::domain::ledger_codec::varint(kind.len()) + kind + expiry + seq![closed]
                    + crate::domain::ledger_codec::varint(live.created_at.value as nat)
            },
        },
{
    let bytes = crate::domain::ledger_codec::ledger_record_bytes(record);
    assert(crate::domain::ledger_codec::varint(0) =~= seq![0u8]);
    assert(crate::domain::ledger_codec::varint(1) =~= seq![1u8]);
    assert(crate::domain::ledger_codec::varint(2) =~= seq![2u8]);
    if let LedgerRecordModel::Live { uid, record: live } = record {
        let kind = vstd::utf8::encode_utf8(live.content_type);
        let expiry = crate::domain::ledger_codec::expiry_bytes(live.expiry);
        let closed = if live.lifecycle == StreamLifecycle::Closed {
            1u8
        } else {
            0u8
        };
        assert(bytes =~= seq![0u8] + crate::domain::ledger_codec::varint(uid.value as nat)
            + crate::domain::ledger_codec::varint(kind.len()) + kind + expiry + seq![closed]
            + crate::domain::ledger_codec::varint(live.created_at.value as nat));
    }
}

/// A number is spelled in decimal without leading zeros: its last digit is the remainder
/// by ten, and the digits before it spell the quotient.
pub proof fn law_numbers_are_spelled_in_decimal(value: u64, digit: nat, text: String)
    requires
        digit < 10,
        call_ensures(crate::domain::text::number_text, (value,), text),
    ensures
        text@ == crate::domain::text::number_chars(value as nat),
        crate::domain::text::number_chars(digit) == seq![(48 + digit) as char],
        value > 0 ==> crate::domain::text::number_chars(10 * value as nat + digit)
            == crate::domain::text::number_chars(value as nat).push((48 + digit) as char),
{
    let longer = 10 * value as nat + digit;
    assert(crate::domain::text::number_chars(digit) =~= seq![(48 + digit) as char]);
    if value > 0 {
        assert(longer / 10 == value && longer % 10 == digit);
        assert(crate::domain::text::number_chars(longer)
            =~= crate::domain::text::number_chars(value as nat).push((48 + digit) as char));
    }
}

/// An empty tree has no runs, and only that.
pub proof fn law_empty_trees_have_no_runs(tree: TreeVersion, none: TreeVersion, empty: bool)
    requires
        call_ensures(TreeVersion::empty, (), none),
        call_ensures(TreeVersion::is_empty, (&tree,), empty),
    ensures
        none@.len() == 0,
        empty <==> tree@.len() == 0,
{
}

} // verus!
