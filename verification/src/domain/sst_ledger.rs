//! Ledger table archives.

use vstd::prelude::*;

use crate::domain::archive::{
    read_ledger_archive, write_ledger_archive, LedgerArchive, LedgerRowArchive, RawLedger,
    RawLedgerRow, RecordArchive,
};
use crate::domain::bounds::{
    LEDGER_DELETE_ROW_ENCODED_BYTES_MAX, LEDGER_DELETE_ROW_LOGICAL_BYTES,
    LEDGER_VALUE_ROW_ENCODED_BYTES_MAX, LEDGER_VALUE_ROW_LOGICAL_BYTES_MAX,
    PARTITION_PATH_OCCUPANCIES_MAX_V2, PARTITION_RESIDENT_LOGICAL_BYTES_MAX_V2,
    SST_ARCHIVE_FIXED_BYTES_MAX, SST_OBJECT_BYTES_MAX_USIZE,
};
use crate::domain::coordinate::{BatchId, StreamUid};
use crate::domain::ledger::{LedgerCell, RecordModel, StreamRecord};
use crate::domain::partition::PartitionId;
use crate::domain::protocol::{ProtocolField, ProtocolText, StreamContentType};
use crate::domain::spelling::TableKey;
use crate::domain::sst::{
    check_decode_bound, check_encode_rows, decode_fresh, encode_fresh, SstDecodeError, SstEncodeError,
};
use crate::domain::table::StoreKind;
use crate::domain::wal_codec::{decode_expiry, decode_lifecycle, encode_expiry, encode_lifecycle};

verus! {

/// Bytes of one archived row apart from its content type.
pub const LEDGER_ARCHIVED_ROW_BYTES: usize = 43;

/// What Ledger rows say, in order; a delete has no record.
pub open spec fn ledger_rows(rows: Seq<(StreamUid, LedgerCell)>) -> Seq<
    (StreamUid, Option<RecordModel>),
> {
    rows.map(|_i: int, row: (StreamUid, LedgerCell)| (row.0, row.1@))
}

/// Streams strictly ascend.
pub open spec fn ledger_ordered(rows: Seq<(StreamUid, Option<RecordModel>)>) -> bool {
    forall|i: int, j: int|
        0 <= i < j < rows.len() ==> (#[trigger] rows[i]).0.value < (#[trigger] rows[j]).0.value
}

pub open spec fn record_archive(record: RecordModel) -> RecordArchive {
    (
        record.content_type,
        crate::domain::wal_codec::expiry_archive(record.expiry),
        crate::domain::wal_codec::lifecycle_tag(record.lifecycle),
        record.created_at.value,
    )
}

pub open spec fn archived_record(raw: RecordArchive) -> RecordModel {
    RecordModel {
        content_type: raw.0,
        expiry: crate::domain::wal_codec::archived_expiry(raw.1),
        lifecycle: crate::domain::wal_codec::tagged_lifecycle(raw.2),
        created_at: BatchId { value: raw.3 },
    }
}

pub open spec fn ledger_row_archive(row: (StreamUid, Option<RecordModel>)) -> LedgerRowArchive {
    (
        row.0.value,
        match row.1 {
            Some(record) => Some(record_archive(record)),
            None => None,
        },
    )
}

pub open spec fn archived_ledger_row(raw: LedgerRowArchive) -> (StreamUid, Option<RecordModel>) {
    (
        StreamUid { value: raw.0 },
        match raw.1 {
            Some(record) => Some(archived_record(record)),
            None => None,
        },
    )
}

pub open spec fn ledger_rows_archive(rows: Seq<(StreamUid, Option<RecordModel>)>) -> Seq<
    LedgerRowArchive,
> {
    rows.map(|_i: int, row: (StreamUid, Option<RecordModel>)| ledger_row_archive(row))
}

pub open spec fn archived_ledger_rows(raw: Seq<LedgerRowArchive>) -> Seq<
    (StreamUid, Option<RecordModel>),
> {
    raw.map(|_i: int, row: LedgerRowArchive| archived_ledger_row(row))
}

/// The plain values that a Ledger table is archived as.
pub open spec fn ledger_archive(
    key: TableKey,
    rows: Seq<(StreamUid, Option<RecordModel>)>,
) -> LedgerArchive {
    (
        key.partition.octets@,
        crate::domain::sst::fresh_archive(key.object.fresh),
        ledger_rows_archive(rows),
    )
}

pub open spec fn ledger_row_structured(raw: LedgerRowArchive) -> bool {
    &&& raw.0 != 0
    &&& raw.1 matches Some(record) ==> record.1.0 <= 2 && record.2 <= 1 && record.3 != 0
}

/// Reserved zeros and unknown variants are structural faults.
pub open spec fn ledger_structured(raw: LedgerArchive) -> bool {
    &&& raw.1.0 != 0
    &&& raw.1.1 != 0
    &&& forall|i: int| 0 <= i < raw.2.len() ==> ledger_row_structured(#[trigger] raw.2[i])
}

/// The grammar accepts the protocol fields of a record.
pub open spec fn record_accepted(
    record: RecordModel,
    accepts: spec_fn(ProtocolText) -> bool,
) -> bool {
    &&& crate::domain::protocol::content_type_accepted(record.content_type, accepts)
    &&& record.expiry.wf()
    &&& record.expiry.accepted(accepts)
}

pub open spec fn cell_accepted(
    cell: Option<RecordModel>,
    accepts: spec_fn(ProtocolText) -> bool,
) -> bool {
    cell matches Some(record) ==> record_accepted(record, accepts)
}

/// Rows strictly ascend and every record is acceptable.
pub open spec fn ledger_rows_accepted(
    rows: Seq<(StreamUid, Option<RecordModel>)>,
    accepts: spec_fn(ProtocolText) -> bool,
) -> bool {
    &&& ledger_ordered(rows)
    &&& forall|i: int| 0 <= i < rows.len() ==> cell_accepted((#[trigger] rows[i]).1, accepts)
}

/// The rows that archived plain values of a Ledger table at a key say.
pub open spec fn spec_decode_archived_ledger(
    expected: TableKey,
    raw: LedgerArchive,
    accepts: spec_fn(ProtocolText) -> bool,
) -> Result<Seq<(StreamUid, Option<RecordModel>)>, SstDecodeError> {
    if !ledger_structured(raw) {
        Err(SstDecodeError::MalformedArchive)
    } else if raw.0 == seq![0u8; 16] || !crate::domain::sst::archived_fresh(raw.1).wf() {
        Err(SstDecodeError::InvalidBody)
    } else if raw.0 != expected.partition.octets@ || crate::domain::sst::archived_fresh(raw.1)
        != expected.object.fresh {
        Err(SstDecodeError::IdentityMismatch)
    } else if raw.2.len() == 0 {
        Err(SstDecodeError::InvalidBody)
    } else if raw.2.len() > PARTITION_PATH_OCCUPANCIES_MAX_V2 {
        Err(SstDecodeError::ResourceBound)
    } else if !ledger_rows_accepted(archived_ledger_rows(raw.2), accepts) {
        Err(SstDecodeError::InvalidBody)
    } else {
        Ok(archived_ledger_rows(raw.2))
    }
}

/// The rows that the bytes of a Ledger table at a key hold: all of them or none.
pub open spec fn spec_decode_ledger_sst(
    expected: TableKey,
    bytes: Seq<u8>,
    accepts: spec_fn(ProtocolText) -> bool,
) -> Result<Seq<(StreamUid, Option<RecordModel>)>, SstDecodeError> {
    if bytes.len() > SST_OBJECT_BYTES_MAX_USIZE {
        Err(SstDecodeError::EncodedBytesOverMax { bytes_actual: bytes.len() as u64 })
    } else if expected.object.store != StoreKind::Ledger {
        Err(SstDecodeError::StoreMismatch)
    } else {
        match crate::domain::archive::ledger_archive_value(bytes) {
            None => Err(SstDecodeError::MalformedArchive),
            Some(raw) => spec_decode_archived_ledger(expected, raw, accepts),
        }
    }
}

/// Why rows form no Ledger table, if they form none.
pub open spec fn ledger_encode_error(
    expected: TableKey,
    rows: Seq<(StreamUid, Option<RecordModel>)>,
) -> Option<SstEncodeError> {
    if expected.object.store != StoreKind::Ledger {
        Some(SstEncodeError::StoreMismatch)
    } else if rows.len() == 0 {
        Some(SstEncodeError::EmptyTable)
    } else if crate::domain::sst::rows_over_max(rows.len(), LEDGER_ARCHIVED_ROW_BYTES as nat) {
        Some(SstEncodeError::EncodedBytesOverMax)
    } else if !ledger_ordered(rows) {
        Some(SstEncodeError::RowsNotStrictlyOrdered)
    } else if crate::domain::archive::ledger_archive_bytes(ledger_archive(expected, rows)).len()
        > SST_OBJECT_BYTES_MAX_USIZE {
        Some(SstEncodeError::EncodedBytesOverMax)
    } else {
        None
    }
}

/// A record's content type is no longer than a content type may be.
pub open spec fn cell_fits(cell: Option<RecordModel>) -> bool {
    cell matches Some(record) ==> crate::domain::protocol::content_type_fits(record.content_type)
}

/// No content type is longer than a content type may be.
pub open spec fn cells_fit(rows: Seq<(StreamUid, Option<RecordModel>)>) -> bool {
    forall|i: int| 0 <= i < rows.len() ==> cell_fits((#[trigger] rows[i]).1)
}

/// Worst-case bytes of one Ledger row.
pub open spec fn cell_estimate(cell: Option<RecordModel>) -> nat {
    match cell {
        Some(_) => LEDGER_VALUE_ROW_ENCODED_BYTES_MAX as nat,
        None => LEDGER_DELETE_ROW_ENCODED_BYTES_MAX as nat,
    }
}

/// Worst-case bytes of Ledger rows.
pub open spec fn cells_estimate(rows: Seq<(StreamUid, Option<RecordModel>)>) -> nat
    decreases rows.len(),
{
    if rows.len() == 0 {
        0
    } else {
        cells_estimate(rows.drop_last()) + cell_estimate(rows.last().1)
    }
}

/// Worst-case bytes of a Ledger table.
pub open spec fn ledger_estimate(rows: Seq<(StreamUid, Option<RecordModel>)>) -> nat {
    SST_ARCHIVE_FIXED_BYTES_MAX as nat + cells_estimate(rows)
}

proof fn lemma_ledger_room(rows: Seq<(StreamUid, Option<RecordModel>)>)
    requires
        cells_fit(rows),
    ensures
        crate::domain::archive::ledger_rows_room(ledger_rows_archive(rows)) <= cells_estimate(rows),
        rows.len() * LEDGER_ARCHIVED_ROW_BYTES <= cells_estimate(rows),
    decreases rows.len(),
{
    if rows.len() > 0 {
        assert(cells_fit(rows.drop_last())) by {
            assert forall|i: int| 0 <= i < rows.drop_last().len() implies cell_fits(
                (#[trigger] rows.drop_last()[i]).1,
            ) by {
                assert(rows.drop_last()[i] == rows[i]);
            }
        }
        lemma_ledger_room(rows.drop_last());
        assert(ledger_rows_archive(rows).drop_last() =~= ledger_rows_archive(rows.drop_last()));
        assert(ledger_rows_archive(rows).last() == ledger_row_archive(rows.last()));
        assert(cell_fits(rows[rows.len() - 1].1));
    }
}

/// Encodes one non-empty, strictly UID-ordered Ledger table. The worst-case account
/// of its rows is sound: the table is never longer, so rows whose account is inside
/// the bound are never refused for their length.
pub fn encode_ledger_sst(expected: &TableKey, rows: &[(StreamUid, LedgerCell)]) -> (encoded: Result<
    Vec<u8>,
    SstEncodeError,
>)
    ensures
        cells_fit(ledger_rows(rows@)) && expected.object.store == StoreKind::Ledger && 0
            < rows@.len() && ledger_ordered(ledger_rows(rows@)) && ledger_estimate(
            ledger_rows(rows@),
        ) <= SST_OBJECT_BYTES_MAX_USIZE ==> encoded is Ok,
        cells_fit(ledger_rows(rows@)) ==> (encoded matches Ok(bytes) ==> bytes@.len()
            <= ledger_estimate(ledger_rows(rows@))),
        match encoded {
            Ok(bytes) => {
                let value = ledger_archive(*expected, ledger_rows(rows@));
                &&& ledger_encode_error(*expected, ledger_rows(rows@)) is None
                &&& bytes@ == crate::domain::archive::ledger_archive_bytes(value)
                &&& 0 < bytes@.len() <= SST_OBJECT_BYTES_MAX_USIZE
                &&& crate::domain::archive::ledger_archive_value(bytes@) == Some(value)
            },
            Err(error) => ledger_encode_error(*expected, ledger_rows(rows@)) == Some(error),
        },
{
    proof {
        if cells_fit(ledger_rows(rows@)) {
            lemma_ledger_room(ledger_rows(rows@));
        }
    }
    if expected.object.store != StoreKind::Ledger {
        return Err(SstEncodeError::StoreMismatch);
    }
    if rows.len() == 0 {
        return Err(SstEncodeError::EmptyTable);
    }
    match check_encode_rows(rows.len(), LEDGER_ARCHIVED_ROW_BYTES) {
        Ok(()) => {},
        Err(error) => {
            return Err(error);
        },
    }
    if !is_ledger_ordered(rows) {
        return Err(SstEncodeError::RowsNotStrictlyOrdered);
    }
    let raw: RawLedger = (
        expected.partition.octets,
        encode_fresh(expected.object.fresh),
        encode_rows(rows),
    );
    assert(crate::domain::archive::ledger_value(raw) == ledger_archive(
        *expected,
        ledger_rows(rows@),
    ));
    match write_ledger_archive(&raw, SST_OBJECT_BYTES_MAX_USIZE) {
        Some(bytes) => Ok(bytes),
        None => Err(SstEncodeError::EncodedBytesOverMax),
    }
}

fn is_ledger_ordered(rows: &[(StreamUid, LedgerCell)]) -> (ordered: bool)
    ensures
        ordered == ledger_ordered(ledger_rows(rows@)),
{
    let ghost said = ledger_rows(rows@);
    let mut at: usize = 1;
    while at < rows.len()
        invariant
            1 <= at,
            said == ledger_rows(rows@),
            forall|i: int, j: int|
                0 <= i < j < at && j < said.len() ==> (#[trigger] said[i]).0.value < (
                #[trigger] said[j]).0.value,
        decreases rows.len() - at,
    {
        assert(said[at as int].0 == rows@[at as int].0);
        assert(said[at - 1].0 == rows@[at - 1].0);
        if rows[at].0.value <= rows[at - 1].0.value {
            return false;
        }
        at += 1;
    }
    true
}

fn encode_rows(rows: &[(StreamUid, LedgerCell)]) -> (raw: Vec<RawLedgerRow>)
    ensures
        raw@.map(|_i: int, row: RawLedgerRow| crate::domain::archive::ledger_row_value(row))
            == ledger_rows_archive(ledger_rows(rows@)),
{
    let mut raw: Vec<RawLedgerRow> = Vec::new();
    let mut at: usize = 0;
    while at < rows.len()
        invariant
            at <= rows.len(),
            raw@.len() == at,
            forall|i: int|
                0 <= i < at ==> crate::domain::archive::ledger_row_value(#[trigger] raw@[i])
                    == ledger_row_archive((rows@[i].0, rows@[i].1@)),
        decreases rows.len() - at,
    {
        let row: RawLedgerRow = match &rows[at].1 {
            LedgerCell::Value(record) => (
                rows[at].0.value,
                Ok(
                    (
                        record.content_type.text.clone(),
                        encode_expiry(record.expiry),
                        encode_lifecycle(record.lifecycle),
                        record.created_at.value,
                    ),
                ),
            ),
            LedgerCell::Delete => (rows[at].0.value, Err(())),
        };
        assert(crate::domain::archive::ledger_row_value(row) == ledger_row_archive(
            (rows@[at as int].0, rows@[at as int].1@),
        ));
        raw.push(row);
        at += 1;
    }
    assert(raw@.map(|_i: int, row: RawLedgerRow| crate::domain::archive::ledger_row_value(row))
        =~= ledger_rows_archive(ledger_rows(rows@)));
    raw
}

/// Streams and creation batches are not the reserved zero, times to live are not
/// zero.
pub open spec fn ledger_rows_wf(rows: Seq<(StreamUid, Option<RecordModel>)>) -> bool {
    forall|i: int|
        0 <= i < rows.len() ==> {
            &&& (#[trigger] rows[i]).0.wf()
            &&& rows[i].1 matches Some(record) ==> record.wf()
        }
}

/// Decodes a complete Ledger table into an all-or-nothing owned row set.
pub fn decode_ledger_sst<Grammar: Fn(ProtocolField<'_>) -> bool>(
    expected: &TableKey,
    bytes: &[u8],
    grammar: &Grammar,
) -> (rows: Result<Vec<(StreamUid, LedgerCell)>, SstDecodeError>)
    requires
        crate::domain::protocol::is_total(*grammar),
    ensures
        rows matches Ok(rows) ==> ledger_ordered(ledger_rows(rows@)) && rows@.len() > 0
            && ledger_rows_wf(ledger_rows(rows@)),
        forall|accepts: spec_fn(ProtocolText) -> bool|
            #[trigger] crate::domain::protocol::decides(*grammar, accepts) ==> match rows {
                Ok(rows) => spec_decode_ledger_sst(*expected, bytes@, accepts) == Ok::<
                    _,
                    SstDecodeError,
                >(ledger_rows(rows@)),
                Err(error) => spec_decode_ledger_sst(*expected, bytes@, accepts) == Err::<
                    Seq<(StreamUid, Option<RecordModel>)>,
                    SstDecodeError,
                >(error),
            },
{
    match check_decode_bound(bytes) {
        Ok(()) => {},
        Err(error) => {
            return Err(error);
        },
    }
    if expected.object.store != StoreKind::Ledger {
        return Err(SstDecodeError::StoreMismatch);
    }
    match read_ledger_archive(bytes) {
        None => Err(SstDecodeError::MalformedArchive),
        Some(raw) => decode_archived_ledger(expected, &raw, grammar),
    }
}

/// Checks archived plain values of a Ledger table against its key.
pub fn decode_archived_ledger<Grammar: Fn(ProtocolField<'_>) -> bool>(
    expected: &TableKey,
    raw: &RawLedger,
    grammar: &Grammar,
) -> (rows: Result<Vec<(StreamUid, LedgerCell)>, SstDecodeError>)
    requires
        crate::domain::protocol::is_total(*grammar),
    ensures
        rows matches Ok(rows) ==> ledger_ordered(ledger_rows(rows@)) && rows@.len() > 0
            && ledger_rows_wf(ledger_rows(rows@)),
        forall|accepts: spec_fn(ProtocolText) -> bool|
            #[trigger] crate::domain::protocol::decides(*grammar, accepts) ==> match rows {
                Ok(rows) => spec_decode_archived_ledger(
                    *expected,
                    crate::domain::archive::ledger_value(*raw),
                    accepts,
                ) == Ok::<_, SstDecodeError>(ledger_rows(rows@)),
                Err(error) => spec_decode_archived_ledger(
                    *expected,
                    crate::domain::archive::ledger_value(*raw),
                    accepts,
                ) == Err::<Seq<(StreamUid, Option<RecordModel>)>, SstDecodeError>(error),
            },
{
    let ghost value = crate::domain::archive::ledger_value(*raw);
    assert(value.2 == raw_rows_value(raw.2@));
    if raw.1.0 == 0 || raw.1.1 == 0 || !is_rows_structured(&raw.2) {
        return Err(SstDecodeError::MalformedArchive);
    }
    assert(ledger_structured(value));
    let partition = match PartitionId::try_from(raw.0) {
        Ok(partition) => partition,
        Err(_nil) => {
            return Err(SstDecodeError::InvalidBody);
        },
    };
    let fresh = match decode_fresh(raw.1) {
        Some(fresh) => fresh,
        None => {
            return Err(SstDecodeError::InvalidBody);
        },
    };
    if !partition.is_same(&expected.partition) || fresh != expected.object.fresh {
        proof {
            assert(partition.octets@ == expected.partition.octets@ ==> partition.octets
                == expected.partition.octets);
        }
        return Err(SstDecodeError::IdentityMismatch);
    }
    if raw.2.len() == 0 {
        return Err(SstDecodeError::InvalidBody);
    }
    if raw.2.len() as u64 > PARTITION_PATH_OCCUPANCIES_MAX_V2 {
        return Err(SstDecodeError::ResourceBound);
    }
    match decode_rows(&raw.2, grammar) {
        Some(rows) => Ok(rows),
        None => Err(SstDecodeError::InvalidBody),
    }
}

spec fn raw_rows_value(raw: Seq<RawLedgerRow>) -> Seq<LedgerRowArchive> {
    raw.map(|_i: int, row: RawLedgerRow| crate::domain::archive::ledger_row_value(row))
}

fn is_rows_structured(raw: &Vec<RawLedgerRow>) -> (structured: bool)
    ensures
        structured == (forall|i: int|
            0 <= i < raw@.len() ==> ledger_row_structured(#[trigger] raw_rows_value(raw@)[i])),
{
    let ghost value = raw_rows_value(raw@);
    let mut at: usize = 0;
    while at < raw.len()
        invariant
            at <= raw.len(),
            value == raw_rows_value(raw@),
            forall|i: int| 0 <= i < at ==> ledger_row_structured(#[trigger] value[i]),
        decreases raw.len() - at,
    {
        let structured = match &raw[at].1 {
            Ok(record) => record.1.0 <= 2 && record.2 <= 1 && record.3 != 0,
            Err(_) => true,
        };
        if raw[at].0 == 0 || !structured {
            assert(!ledger_row_structured(value[at as int]));
            return false;
        }
        at += 1;
    }
    true
}

/// Reads rows whose count is inside the bound; the bound on the count keeps the
/// resident account of the rows inside its own bound.
fn decode_rows<Grammar: Fn(ProtocolField<'_>) -> bool>(raw: &Vec<RawLedgerRow>, grammar: &Grammar) -> (rows:
    Option<Vec<(StreamUid, LedgerCell)>>)
    requires
        raw@.len() <= PARTITION_PATH_OCCUPANCIES_MAX_V2,
        forall|i: int|
            0 <= i < raw@.len() ==> ledger_row_structured(#[trigger] raw_rows_value(raw@)[i]),
        crate::domain::protocol::is_total(*grammar),
    ensures
        rows matches Some(rows) ==> {
            &&& rows@.len() == raw@.len()
            &&& ledger_rows(rows@) == archived_ledger_rows(raw_rows_value(raw@))
            &&& ledger_ordered(ledger_rows(rows@))
            &&& ledger_rows_wf(ledger_rows(rows@))
        },
        forall|accepts: spec_fn(ProtocolText) -> bool|
            #[trigger] crate::domain::protocol::decides(*grammar, accepts) ==> rows is Some
                == ledger_rows_accepted(archived_ledger_rows(raw_rows_value(raw@)), accepts),
{
    let ghost said = archived_ledger_rows(raw_rows_value(raw@));
    let mut rows: Vec<(StreamUid, LedgerCell)> = Vec::new();
    let mut resident_bytes: u64 = 0;
    let mut at: usize = 0;
    while at < raw.len()
        invariant
            at <= raw.len() <= PARTITION_PATH_OCCUPANCIES_MAX_V2,
            said == archived_ledger_rows(raw_rows_value(raw@)),
            forall|i: int|
                0 <= i < raw@.len() ==> ledger_row_structured(#[trigger] raw_rows_value(raw@)[i]),
            crate::domain::protocol::is_total(*grammar),
            resident_bytes <= at * LEDGER_VALUE_ROW_LOGICAL_BYTES_MAX,
            rows@.len() == at,
            forall|i: int|
                0 <= i < at ==> (#[trigger] rows@[i]).0 == said[i].0 && rows@[i].1@ == said[i].1
                    && said[i].0.wf() && (said[i].1 matches Some(record) ==> record.wf()),
            forall|i: int, j: int|
                0 <= i < j < at ==> (#[trigger] said[i]).0.value < (#[trigger] said[j]).0.value,
            forall|accepts: spec_fn(ProtocolText) -> bool|
                #[trigger] crate::domain::protocol::decides(*grammar, accepts) ==> forall|i: int|
                    0 <= i < at ==> cell_accepted((#[trigger] said[i]).1, accepts),
        decreases raw.len() - at,
    {
        assert(ledger_row_structured(raw_rows_value(raw@)[at as int]));
        let uid = StreamUid { value: raw[at].0 };
        if at > 0 && uid.value <= raw[at - 1].0 {
            assert(said[at - 1].0.value >= said[at as int].0.value);
            return None;
        }
        let cell = match &raw[at].1 {
            Ok(record) => {
                resident_bytes = resident_bytes + LEDGER_VALUE_ROW_LOGICAL_BYTES_MAX;
                let content_type = StreamContentType::new(record.0.clone(), grammar);
                let expiry = decode_expiry(record.1, grammar);
                match (content_type, expiry) {
                    (Some(content_type), Some(expiry)) => LedgerCell::Value(
                        StreamRecord {
                            content_type,
                            expiry,
                            lifecycle: decode_lifecycle(record.2),
                            created_at: BatchId { value: record.3 },
                        },
                    ),
                    _ => {
                        assert forall|accepts: spec_fn(ProtocolText) -> bool|
                            #[trigger] crate::domain::protocol::decides(
                                *grammar,
                                accepts,
                            ) implies !ledger_rows_accepted(said, accepts) by {
                            assert(!cell_accepted(said[at as int].1, accepts));
                        }
                        return None;
                    },
                }
            },
            Err(_) => {
                resident_bytes = resident_bytes + LEDGER_DELETE_ROW_LOGICAL_BYTES;
                LedgerCell::Delete
            },
        };
        assert(resident_bytes <= PARTITION_RESIDENT_LOGICAL_BYTES_MAX_V2);
        assert(cell@ == said[at as int].1);
        rows.push((uid, cell));
        at += 1;
    }
    assert(ledger_rows(rows@) =~= said);
    Some(rows)
}

/// Reading the bytes that Ledger rows were encoded as, at their own key, with a
/// grammar that accepts their fields, gives the rows back.
///
/// The premises on `bytes` are what [`encode_ledger_sst`] ensures of the bytes it
/// returns.
pub proof fn law_ledger_sst_round_trips(
    key: TableKey,
    rows: Seq<(StreamUid, Option<RecordModel>)>,
    bytes: Seq<u8>,
    accepts: spec_fn(ProtocolText) -> bool,
)
    requires
        key.wf(),
        ledger_encode_error(key, rows) is None,
        ledger_rows_wf(rows),
        forall|i: int| 0 <= i < rows.len() ==> cell_accepted((#[trigger] rows[i]).1, accepts),
        bytes.len() <= SST_OBJECT_BYTES_MAX_USIZE,
        crate::domain::archive::ledger_archive_value(bytes) == Some(ledger_archive(key, rows)),
    ensures
        spec_decode_ledger_sst(key, bytes, accepts) == Ok::<_, SstDecodeError>(rows),
{
    let raw = ledger_archive(key, rows);
    assert forall|i: int| 0 <= i < raw.2.len() implies ledger_row_structured(#[trigger] raw.2[i])
        && archived_ledger_row(raw.2[i]) == rows[i] by {
        assert(rows[i].0.wf());
        if let Some(record) = rows[i].1 {
            crate::domain::wal_codec::lemma_expiry_archive(record.expiry);
        }
    }
    assert(archived_ledger_rows(raw.2) =~= rows);
}

} // verus!
