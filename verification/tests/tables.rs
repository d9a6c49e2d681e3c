//! Durable Directory and Ledger tables.

use strom_storage::domain::bounds::{
    CONTENT_TYPE_BYTES_MAX, LEDGER_DELETE_ROW_ENCODED_BYTES_MAX,
    LEDGER_VALUE_ROW_ENCODED_BYTES_MAX, SST_ARCHIVE_FIXED_BYTES_MAX, SST_OBJECT_BYTES_MAX_USIZE,
};
use strom_storage::domain::candidate::EncodedTable;
use strom_storage::domain::coordinate::{BatchId, SealGeneration, StreamUid};
use strom_storage::domain::directory::{DirectoryEntry, DirectoryKey};
use strom_storage::domain::ledger::{LedgerCell, StreamRecord};
use strom_storage::domain::partition::PartitionId;
use strom_storage::domain::protocol::{
    ExpiresAt, ExpiryPolicy, ProtocolField, StreamContentType, StreamLifecycle, StreamTtl,
};
use strom_storage::domain::spelling::TableKey;
use strom_storage::domain::sst::{
    check_decode_bound, check_encode_rows, SstDecodeError, SstEncodeError,
};
use strom_storage::domain::sst_directory::{
    decode_archived_directory, decode_directory_sst, encode_directory_sst,
};
use strom_storage::domain::sst_ledger::{
    decode_archived_ledger, decode_ledger_sst, encode_ledger_sst,
};
use strom_storage::domain::table::{AttemptId, FreshIdentity, StoreKind, TableObjectId};

const DIRECTORY_ONE_ROW: &[u8] = &[
    101, 118, 101, 110, 116, 115, 47, 97, 0, 7, 0, 0, 0, 0, 0, 0, 0, 0, 17, 34, 51, 68, 85, 102,
    119, 136, 153, 170, 187, 204, 221, 238, 255, 2, 0, 0, 0, 0, 0, 0, 0, 1, 0, 0, 0, 0, 0, 0, 0, 4,
    0, 0, 0, 0, 0, 0, 0, 0, 0, 0, 0, 195, 255, 255, 255, 1, 0, 0, 0,
];

const LEDGER_ONE_DELETE: &[u8] = &[
    7, 0, 0, 0, 0, 0, 0, 0, 1, 0, 0, 0, 0, 0, 0, 0, 0, 0, 0, 0, 0, 0, 0, 0, 0, 0, 0, 0, 0, 0, 0, 0,
    0, 0, 0, 0, 0, 0, 0, 0, 0, 0, 0, 0, 17, 34, 51, 68, 85, 102, 119, 136, 153, 170, 187, 204, 221,
    238, 255, 2, 0, 0, 0, 0, 0, 0, 0, 1, 0, 0, 0, 0, 0, 0, 0, 4, 0, 0, 0, 0, 0, 0, 0, 0, 0, 0, 0,
    169, 255, 255, 255, 1, 0, 0, 0,
];

/// Nonempty path segments, content types of two parts.
fn grammar(field: ProtocolField<'_>) -> bool {
    match field {
        ProtocolField::StreamPath(path) => path.split('/').all(|segment| !segment.is_empty()),
        ProtocolField::ContentType(kind) => kind.contains('/'),
        ProtocolField::ExpiresAt(_) => true,
    }
}

fn partition() -> PartitionId {
    "00112233-4455-6677-8899-aabbccddeeff".parse().unwrap()
}

fn wrong_partition() -> PartitionId {
    "10112233-4455-6677-8899-aabbccddeeff".parse().unwrap()
}

fn table_key(store: StoreKind) -> TableKey {
    let fresh = FreshIdentity::new(
        SealGeneration::try_from(2).unwrap(),
        AttemptId::new(SealGeneration::genesis(), 4),
        0,
    )
    .unwrap();
    TableKey::new(partition(), TableObjectId::new(fresh, store))
}

fn key(raw: &str) -> DirectoryKey {
    DirectoryKey::new(raw.as_bytes().to_vec(), &grammar).unwrap()
}

fn uid(raw: u64) -> StreamUid {
    StreamUid::try_from(raw).unwrap()
}

fn record(
    content_type: &str,
    expiry: ExpiryPolicy,
    lifecycle: StreamLifecycle,
    created_at: u64,
) -> StreamRecord {
    StreamRecord::new(
        StreamContentType::new(content_type.to_string(), &grammar).unwrap(),
        expiry,
        lifecycle,
        BatchId::try_from(created_at).unwrap(),
    )
}

fn directory_rows() -> Vec<(DirectoryKey, DirectoryEntry)> {
    vec![
        (key("events/a"), DirectoryEntry::Live(uid(7))),
        (key("events/ab"), DirectoryEntry::Tombstone(uid(8))),
        (key("events/b"), DirectoryEntry::Live(uid(9))),
    ]
}

fn ledger_rows() -> Vec<(StreamUid, LedgerCell)> {
    vec![
        (
            uid(7),
            LedgerCell::Value(record(
                "application/json; charset=utf-8",
                ExpiryPolicy::Never,
                StreamLifecycle::Closed,
                9,
            )),
        ),
        (
            uid(8),
            LedgerCell::Value(record(
                "text/plain",
                ExpiryPolicy::SlidingTtl(StreamTtl { seconds: 3_600 }),
                StreamLifecycle::Open,
                10,
            )),
        ),
        (
            uid(9),
            LedgerCell::Value(record(
                "application/octet-stream",
                ExpiryPolicy::AbsoluteExpiry(ExpiresAt {
                    unix_nanoseconds: 1_893_456_000_000_000_000,
                }),
                StreamLifecycle::Open,
                11,
            )),
        ),
        (uid(10), LedgerCell::Delete),
    ]
}

#[test]
fn directory_and_ledger_roots_roundtrip() {
    let directory_key = table_key(StoreKind::Directory);
    let directory = encode_directory_sst(&directory_key, &directory_rows()).unwrap();
    assert_eq!(
        Ok(directory_rows()),
        decode_directory_sst(&directory_key, &directory, &grammar)
    );

    let ledger_key = table_key(StoreKind::Ledger);
    let ledger = encode_ledger_sst(&ledger_key, &ledger_rows()).unwrap();
    assert_eq!(Ok(ledger_rows()), decode_ledger_sst(&ledger_key, &ledger, &grammar));
}

#[test]
fn minimal_fixtures_anchor_each_concrete_archive_root() {
    let directory_key = table_key(StoreKind::Directory);
    let directory_rows = vec![(key("events/a"), DirectoryEntry::Live(uid(7)))];
    assert_eq!(
        DIRECTORY_ONE_ROW,
        encode_directory_sst(&directory_key, &directory_rows).unwrap().as_slice()
    );
    assert_eq!(
        Ok(directory_rows),
        decode_directory_sst(&directory_key, DIRECTORY_ONE_ROW, &grammar)
    );

    let ledger_key = table_key(StoreKind::Ledger);
    let ledger_rows = vec![(uid(7), LedgerCell::Delete)];
    assert_eq!(
        LEDGER_ONE_DELETE,
        encode_ledger_sst(&ledger_key, &ledger_rows).unwrap().as_slice()
    );
    assert_eq!(Ok(ledger_rows), decode_ledger_sst(&ledger_key, LEDGER_ONE_DELETE, &grammar));
}

#[test]
fn encoders_reject_empty_unordered_and_wrong_store_inputs() {
    let directory_key = table_key(StoreKind::Directory);
    let ledger_key = table_key(StoreKind::Ledger);
    assert_eq!(
        Err(SstEncodeError::EmptyTable),
        encode_directory_sst(&directory_key, &[])
    );
    let mut directory_rows = directory_rows();
    directory_rows.swap(0, 1);
    assert_eq!(
        Err(SstEncodeError::RowsNotStrictlyOrdered),
        encode_directory_sst(&directory_key, &directory_rows)
    );
    assert_eq!(
        Err(SstEncodeError::StoreMismatch),
        encode_directory_sst(&ledger_key, &directory_rows)
    );
    assert_eq!(
        Err(SstDecodeError::StoreMismatch),
        decode_directory_sst(&ledger_key, DIRECTORY_ONE_ROW, &grammar)
    );

    assert_eq!(Err(SstEncodeError::EmptyTable), encode_ledger_sst(&ledger_key, &[]));
    let mut ledger_rows = ledger_rows();
    ledger_rows.swap(0, 1);
    assert_eq!(
        Err(SstEncodeError::RowsNotStrictlyOrdered),
        encode_ledger_sst(&ledger_key, &ledger_rows)
    );
    assert_eq!(
        Err(SstEncodeError::StoreMismatch),
        encode_ledger_sst(&directory_key, &ledger_rows)
    );
    assert_eq!(
        Err(SstDecodeError::StoreMismatch),
        decode_ledger_sst(&directory_key, LEDGER_ONE_DELETE, &grammar)
    );
}

#[test]
fn decoders_check_structure_before_location_identity() {
    let directory_key = table_key(StoreKind::Directory);
    let encoded = encode_directory_sst(&directory_key, &directory_rows()).unwrap();
    let wrong_location = TableKey::new(wrong_partition(), directory_key.object());
    assert_eq!(
        Err(SstDecodeError::IdentityMismatch),
        decode_directory_sst(&wrong_location, &encoded, &grammar)
    );
    assert_eq!(
        Err(SstDecodeError::MalformedArchive),
        decode_directory_sst(&wrong_location, &encoded[..encoded.len() - 1], &grammar)
    );

    let ledger_key = table_key(StoreKind::Ledger);
    let encoded = encode_ledger_sst(&ledger_key, &ledger_rows()).unwrap();
    let wrong_location = TableKey::new(wrong_partition(), ledger_key.object());
    assert_eq!(
        Err(SstDecodeError::IdentityMismatch),
        decode_ledger_sst(&wrong_location, &encoded, &grammar)
    );
    assert_eq!(
        Err(SstDecodeError::MalformedArchive),
        decode_ledger_sst(&wrong_location, &encoded[..encoded.len() - 1], &grammar)
    );
}

#[test]
fn checked_access_accepts_misaligned_object_store_slices() {
    let directory_key = table_key(StoreKind::Directory);
    let encoded = encode_directory_sst(&directory_key, &directory_rows()).unwrap();
    let mut storage = vec![0];
    storage.extend_from_slice(&encoded);
    assert_eq!(
        Ok(directory_rows()),
        decode_directory_sst(&directory_key, &storage[1..], &grammar)
    );
}

#[test]
fn structurally_valid_noncanonical_values_fail_domain_construction() {
    let directory_key = table_key(StoreKind::Directory);
    let mut damaged = encode_directory_sst(
        &directory_key,
        &[(key("events/a"), DirectoryEntry::Live(uid(7)))],
    )
    .unwrap();
    let at = damaged.windows(8).position(|window| window == b"events/a").unwrap();
    damaged[at + 7] = b'/';
    assert_eq!(
        Err(SstDecodeError::InvalidBody),
        decode_directory_sst(&directory_key, &damaged, &grammar)
    );

    let ledger_key = table_key(StoreKind::Ledger);
    let mut damaged = encode_ledger_sst(
        &ledger_key,
        &[(
            uid(7),
            LedgerCell::Value(record(
                "application/json",
                ExpiryPolicy::Never,
                StreamLifecycle::Open,
                9,
            )),
        )],
    )
    .unwrap();
    let at = damaged.windows(16).position(|window| window == b"application/json").unwrap();
    damaged[at + b"application".len()] = b'?';
    assert_eq!(
        Err(SstDecodeError::InvalidBody),
        decode_ledger_sst(&ledger_key, &damaged, &grammar)
    );
}

#[test]
fn impossible_row_counts_fail_before_input_iteration() {
    assert_eq!(
        check_encode_rows(usize::MAX, 8),
        Err(SstEncodeError::EncodedBytesOverMax)
    );
    assert_eq!(Ok(()), check_encode_rows(10_000_000, 8));
    assert_eq!(Err(SstEncodeError::EncodedBytesOverMax), check_encode_rows(10_000_001, 8));
    assert_eq!(Ok(()), check_encode_rows(SST_OBJECT_BYTES_MAX_USIZE / 64, 64));
    assert_eq!(
        Err(SstEncodeError::EncodedBytesOverMax),
        check_encode_rows(SST_OBJECT_BYTES_MAX_USIZE / 64 + 1, 64)
    );
}

#[test]
fn decoder_rejects_a_structurally_valid_duplicate_key() {
    let rows = vec![("events/a".to_string(), (0, 1)), ("events/a".to_string(), (1, 2))];
    let raw = (*partition().as_bytes(), (2, 1, 4, 0), rows);
    assert_eq!(
        decode_archived_directory(&table_key(StoreKind::Directory), &raw, &grammar),
        Err(SstDecodeError::InvalidBody)
    );
}

#[test]
fn encoded_ledger_bounds_dominate_maximum_identity_and_rows() {
    let ledger_key = table_key(StoreKind::Ledger);
    let delete = [(uid(u64::MAX), LedgerCell::Delete)];
    let delete_bytes = encode_ledger_sst(&ledger_key, &delete).unwrap();
    assert!(
        delete_bytes.len() as u64
            <= SST_ARCHIVE_FIXED_BYTES_MAX + LEDGER_DELETE_ROW_ENCODED_BYTES_MAX,
        "Ledger delete accounting dominates the maximum encoded fixture"
    );
    assert_eq!(52 + 43, delete_bytes.len(), "framing and identity take 52 bytes");

    let content_type = format!("a/{}", "b".repeat(CONTENT_TYPE_BYTES_MAX - 2));
    let value = [(
        uid(u64::MAX),
        LedgerCell::Value(record(
            &content_type,
            ExpiryPolicy::Never,
            StreamLifecycle::Closed,
            u64::MAX,
        )),
    )];
    let value_bytes = encode_ledger_sst(&ledger_key, &value).unwrap();
    assert!(
        value_bytes.len() as u64
            <= SST_ARCHIVE_FIXED_BYTES_MAX + LEDGER_VALUE_ROW_ENCODED_BYTES_MAX,
        "Ledger value accounting dominates the maximum encoded fixture"
    );
    assert_eq!(52 + 43 + CONTENT_TYPE_BYTES_MAX, value_bytes.len());
}

#[test]
fn decoder_rejects_a_structurally_valid_descending_uid() {
    let raw = (*partition().as_bytes(), (2, 1, 4, 0), vec![(2, Err(())), (1, Err(()))]);
    assert_eq!(
        Err(SstDecodeError::InvalidBody),
        decode_archived_ledger(&table_key(StoreKind::Ledger), &raw, &grammar)
    );
}

#[test]
fn long_paths_take_a_fixed_frame_and_their_bytes() {
    let directory_key = table_key(StoreKind::Directory);
    let long = "a".repeat(512);
    let rows = [(key(&long), DirectoryEntry::Live(uid(7)))];
    assert_eq!(52 + 17 + 512, encode_directory_sst(&directory_key, &rows).unwrap().len());
}

#[test]
fn oversized_table_bodies_are_refused_before_access() {
    let oversized = vec![0; SST_OBJECT_BYTES_MAX_USIZE + 1];
    let error = SstDecodeError::EncodedBytesOverMax {
        bytes_actual: SST_OBJECT_BYTES_MAX_USIZE as u64 + 1,
    };
    assert_eq!(Err(error), check_decode_bound(&oversized));
    assert_eq!(
        Err(error),
        decode_ledger_sst(&table_key(StoreKind::Ledger), &oversized, &grammar)
    );
    assert_eq!(Ok(()), check_decode_bound(&oversized[1..]));
}

#[test]
fn encoded_tables_name_their_exact_length() {
    let directory_key = table_key(StoreKind::Directory);
    let encoded = EncodedTable::encode_directory(directory_key, &directory_rows()).unwrap();
    let bytes = encode_directory_sst(&directory_key, &directory_rows()).unwrap();
    assert_eq!(bytes, encoded.bytes().to_vec());
    assert_eq!(bytes.len() as u64, encoded.table().object_bytes());
    assert_eq!(directory_key, encoded.key());
    assert_eq!(directory_key.object(), encoded.table().object());

    let ledger_key = table_key(StoreKind::Ledger);
    let encoded = EncodedTable::encode_ledger(ledger_key, &ledger_rows()).unwrap();
    assert_eq!(
        encode_ledger_sst(&ledger_key, &ledger_rows()).unwrap(),
        encoded.bytes().to_vec()
    );
}

#[test]
fn table_failures_spell_their_messages() {
    let encodes = [
        (SstEncodeError::StoreMismatch, "table key names the wrong store for this SST root"),
        (SstEncodeError::EmptyTable, "SST must contain at least one row"),
        (SstEncodeError::RowsNotStrictlyOrdered, "SST rows are not strictly ordered"),
        (SstEncodeError::Serialization, "SST could not be archived"),
        (SstEncodeError::EncodedBytesOverMax, "SST exceeds the 134217728-byte bound"),
    ];
    for (error, message) in encodes {
        assert_eq!(message, error.to_string());
    }
    let decodes = [
        (
            SstDecodeError::EncodedBytesOverMax { bytes_actual: 134217729 },
            "SST is 134217729 bytes; the bound is 134217728",
        ),
        (SstDecodeError::MalformedArchive, "SST archive is structurally malformed"),
        (SstDecodeError::InvalidBody, "SST body violates a domain invariant"),
        (
            SstDecodeError::IdentityMismatch,
            "SST body identity differs from the durable table key",
        ),
        (SstDecodeError::StoreMismatch, "table key names the wrong store for this SST root"),
        (SstDecodeError::ResourceBound, "SST exceeds a decoded resource bound"),
    ];
    for (error, message) in decodes {
        assert_eq!(message, error.to_string());
    }
}
