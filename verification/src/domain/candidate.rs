//! Identity-bearing durable candidates encoded exactly once.

use vstd::prelude::*;

use crate::domain::archive::EncodeError;
use crate::domain::bounds::{
    SEAL_ENCODED_BYTES_MAX, SST_OBJECT_BYTES_MAX, SST_OBJECT_BYTES_MAX_USIZE, WAL_ENCODED_BYTES_MAX,
};
use crate::domain::coordinate::{BatchId, SealGeneration, StreamUid};
use crate::domain::directory::{DirectoryEntry, DirectoryKey};
use crate::domain::ledger::{LedgerCell, RecordModel};
use crate::domain::partition::PartitionId;
use crate::domain::seal::{Seal, TableRef};
use crate::domain::seal_codec::encode_seal;
use crate::domain::spelling::TableKey;
use crate::domain::sst::SstEncodeError;
use crate::domain::sst_directory::encode_directory_sst;
use crate::domain::sst_ledger::encode_ledger_sst;
use crate::domain::table::StoreKind;
use crate::domain::wal::{WalModel, WalObject};
use crate::domain::wal_codec::encode_wal;

verus! {

/// `bytes::Bytes`, a shared immutable byte string.
#[verifier::external_type_specification]
#[verifier::external_body]
pub struct ExBytes(bytes::Bytes);

/// The bytes that a shared byte string holds.
pub uninterp spec fn shared_bytes(bytes: bytes::Bytes) -> Seq<u8>;

/// `bytes::Bytes::from`: shares a vector's bytes.
#[verifier::external_body]
fn share(bytes: Vec<u8>) -> (shared: bytes::Bytes)
    ensures
        shared_bytes(shared) == bytes@,
{
    bytes::Bytes::from(bytes)
}

/// `bytes::Bytes::as_ref`: the shared bytes as a slice.
#[verifier::external_body]
pub(crate) fn shared_slice(bytes: &bytes::Bytes) -> (slice: &[u8])
    ensures
        slice@ == shared_bytes(*bytes),
{
    bytes.as_ref()
}

/// One WAL candidate whose identity and exact sent bytes agree by construction.
#[derive(Debug, PartialEq, Eq)]
pub struct EncodedWal {
    pub partition: PartitionId,
    pub batch: BatchId,
    pub bytes: bytes::Bytes,
}

impl EncodedWal {
    /// The candidate is this log object and its bytes are the object's archive.
    pub open spec fn carries(self, object: WalModel) -> bool {
        let value = crate::domain::wal_codec::wal_archive(object);
        let bytes = shared_bytes(self.bytes);
        &&& self.partition == object.partition
        &&& self.batch == object.batch
        &&& bytes == crate::domain::wal_codec::stored_wal_bytes(value)
        &&& 0 < bytes.len() <= WAL_ENCODED_BYTES_MAX
        &&& crate::domain::wal_codec::stored_wal_value(bytes) == Some(value)
    }

    /// Encodes `object` once and retains the exact bytes used for publication.
    pub fn new(object: &WalObject) -> (encoded: Result<Self, EncodeError>)
        ensures
            object@.estimated() <= WAL_ENCODED_BYTES_MAX ==> encoded is Ok,
            match encoded {
                Ok(encoded) => encoded.carries(object@),
                Err(error) => {
                    &&& error == (EncodeError::EncodedBytesOverMax {
                        bytes_max: WAL_ENCODED_BYTES_MAX,
                    })
                    &&& crate::domain::wal_codec::stored_wal_bytes(
                        crate::domain::wal_codec::wal_archive(object@),
                    ).len() > WAL_ENCODED_BYTES_MAX
                },
            },
    {
        let identity = object.identity();
        match encode_wal(object) {
            Ok(bytes) => Ok(
                EncodedWal {
                    partition: identity.partition,
                    batch: identity.batch,
                    bytes: share(bytes),
                },
            ),
            Err(error) => Err(error),
        }
    }

    pub fn partition(&self) -> (partition: PartitionId)
        ensures
            partition == self.partition,
    {
        self.partition
    }

    pub fn batch(&self) -> (batch: BatchId)
        ensures
            batch == self.batch,
    {
        self.batch
    }

    pub fn bytes(&self) -> (bytes: &bytes::Bytes)
        ensures
            *bytes == self.bytes,
    {
        &self.bytes
    }
}

/// A Seal together with the bytes that it was encoded as.
#[derive(Debug, PartialEq, Eq)]
pub struct EncodedSeal {
    pub seal: Seal,
    pub bytes: bytes::Bytes,
}

impl EncodedSeal {
    /// The bytes are what the Seal is archived as.
    pub open spec fn agrees(self) -> bool {
        let value = crate::domain::seal_codec::seal_archive(self.seal@);
        let bytes = shared_bytes(self.bytes);
        &&& bytes == crate::domain::archive::seal_archive_bytes(value)
        &&& 0 < bytes.len() <= SEAL_ENCODED_BYTES_MAX
        &&& crate::domain::archive::seal_archive_value(bytes) == Some(value)
    }

    fn new(seal: &Seal) -> (encoded: Result<Self, EncodeError>)
        ensures
            match encoded {
                Ok(encoded) => encoded.seal@ == seal@ && encoded.agrees(),
                Err(error) => over_seal_bound(seal@) && error == (EncodeError::EncodedBytesOverMax {
                    bytes_max: SEAL_ENCODED_BYTES_MAX,
                }),
            },
            over_seal_bound(seal@) ==> encoded is Err,
            crate::domain::seal_codec::seal_estimate(seal@) <= SEAL_ENCODED_BYTES_MAX ==> encoded is Ok,
    {
        match encode_seal(seal) {
            Ok(bytes) => Ok(EncodedSeal { seal: seal.clone(), bytes: share(bytes) }),
            Err(error) => Err(error),
        }
    }
}

/// The Seal's archive is longer than the Seal bound.
pub open spec fn over_seal_bound(seal: crate::domain::seal::SealModel) -> bool {
    crate::domain::archive::seal_archive_bytes(crate::domain::seal_codec::seal_archive(seal)).len()
        > SEAL_ENCODED_BYTES_MAX
}

/// A canonical genesis Seal candidate.
#[derive(Debug, PartialEq, Eq)]
pub struct EncodedGenesisSeal {
    pub encoded: EncodedSeal,
}

impl EncodedGenesisSeal {
    /// Fails unless the Seal names the genesis generation.
    pub fn new(seal: &Seal) -> (candidate: Result<Self, SealCandidateError>)
        ensures
            seal.generation == SealGeneration::spec_genesis()
                && crate::domain::seal_codec::seal_estimate(seal@) <= SEAL_ENCODED_BYTES_MAX
                ==> candidate is Ok,
            match candidate {
                Ok(candidate) => {
                    &&& seal.generation == SealGeneration::spec_genesis()
                    &&& candidate.encoded.seal@ == seal@
                    &&& candidate.encoded.agrees()
                },
                Err(error) => error == (if seal.generation != SealGeneration::spec_genesis() {
                    SealCandidateError::NotGenesis
                } else {
                    SealCandidateError::Encode(
                        EncodeError::EncodedBytesOverMax { bytes_max: SEAL_ENCODED_BYTES_MAX },
                    )
                }) && (seal.generation == SealGeneration::spec_genesis() ==> over_seal_bound(seal@)),
            },
    {
        if seal.generation() != SealGeneration::genesis() {
            return Err(SealCandidateError::NotGenesis);
        }
        match EncodedSeal::new(seal) {
            Ok(encoded) => Ok(EncodedGenesisSeal { encoded }),
            Err(error) => Err(SealCandidateError::Encode(error)),
        }
    }

    pub fn generation(&self) -> (generation: SealGeneration)
        ensures
            generation == self.encoded.seal.generation,
    {
        self.encoded.seal.generation()
    }

    pub fn bytes(&self) -> (bytes: &bytes::Bytes)
        ensures
            *bytes == self.encoded.bytes,
    {
        &self.encoded.bytes
    }
}

/// A non-genesis Seal candidate whose direct creation grants writer authority.
#[derive(Debug, PartialEq, Eq)]
pub struct EncodedAuthoritySeal {
    pub encoded: EncodedSeal,
}

impl EncodedAuthoritySeal {
    /// Fails unless the Seal advances beyond the genesis generation.
    pub fn new(seal: &Seal) -> (candidate: Result<Self, SealCandidateError>)
        ensures
            seal.generation != SealGeneration::spec_genesis()
                && crate::domain::seal_codec::seal_estimate(seal@) <= SEAL_ENCODED_BYTES_MAX
                ==> candidate is Ok,
            match candidate {
                Ok(candidate) => {
                    &&& seal.generation != SealGeneration::spec_genesis()
                    &&& candidate.encoded.seal@ == seal@
                    &&& candidate.encoded.agrees()
                },
                Err(error) => error == (if seal.generation == SealGeneration::spec_genesis() {
                    SealCandidateError::NotAuthority
                } else {
                    SealCandidateError::Encode(
                        EncodeError::EncodedBytesOverMax { bytes_max: SEAL_ENCODED_BYTES_MAX },
                    )
                }) && (seal.generation != SealGeneration::spec_genesis() ==> over_seal_bound(seal@)),
            },
    {
        if seal.generation() == SealGeneration::genesis() {
            return Err(SealCandidateError::NotAuthority);
        }
        match EncodedSeal::new(seal) {
            Ok(encoded) => Ok(EncodedAuthoritySeal { encoded }),
            Err(error) => Err(SealCandidateError::Encode(error)),
        }
    }

    pub fn generation(&self) -> (generation: SealGeneration)
        ensures
            generation == self.encoded.seal.generation,
    {
        self.encoded.seal.generation()
    }

    pub fn seal(&self) -> (seal: &Seal)
        ensures
            *seal == self.encoded.seal,
    {
        &self.encoded.seal
    }

    pub fn bytes(&self) -> (bytes: &bytes::Bytes)
        ensures
            *bytes == self.encoded.bytes,
    {
        &self.encoded.bytes
    }
}

/// Why a Seal cannot be refined into one durable publication role.
#[derive(Debug, Clone, Copy, PartialEq, Eq, Structural)]
pub enum SealCandidateError {
    NotGenesis,
    NotAuthority,
    Encode(EncodeError),
}

impl SealCandidateError {
    pub open spec fn spec_message(self) -> Seq<char> {
        match self {
            SealCandidateError::NotGenesis =>
                "a genesis candidate must name the genesis generation"@,
            SealCandidateError::NotAuthority =>
                "an authority candidate must advance beyond the genesis generation"@,
            SealCandidateError::Encode(error) => error.spec_message(),
        }
    }

    /// The message shown for this failure.
    pub fn to_string(&self) -> (message: String)
        ensures
            message@ == self.spec_message(),
    {
        match *self {
            SealCandidateError::NotGenesis => String::from_str(
                "a genesis candidate must name the genesis generation",
            ),
            SealCandidateError::NotAuthority => String::from_str(
                "an authority candidate must advance beyond the genesis generation",
            ),
            SealCandidateError::Encode(error) => error.to_string(),
        }
    }
}

/// One SST candidate whose key, reference, and exact encoded bytes agree.
#[derive(Debug, PartialEq, Eq)]
pub struct EncodedTable {
    pub key: TableKey,
    pub table: TableRef,
    pub bytes: bytes::Bytes,
}

impl EncodedTable {
    /// The reference names the key's object and the length of the bytes.
    pub open spec fn agrees(self) -> bool {
        &&& self.table.object == self.key.object
        &&& self.table.object_bytes == shared_bytes(self.bytes).len()
        &&& 0 < self.table.object_bytes <= SST_OBJECT_BYTES_MAX
    }

    /// Encodes checked Directory rows for `key`.
    pub fn encode_directory(key: TableKey, rows: &[(DirectoryKey, DirectoryEntry)]) -> (encoded: Result<
        Self,
        SstEncodeError,
    >)
        requires
            crate::domain::sst_directory::paths_fit(
                crate::domain::sst_directory::directory_rows(rows@),
            ),
        ensures
            ({
                let said = crate::domain::sst_directory::directory_rows(rows@);
                let estimate = crate::domain::sst_directory::directory_estimate(rows@.len());
                &&& key.object.store == StoreKind::Directory && 0 < rows@.len()
                    && crate::domain::sst_directory::directory_ordered(said) && estimate
                    <= SST_OBJECT_BYTES_MAX ==> encoded is Ok
                &&& encoded matches Ok(encoded) ==> encoded.table.object_bytes <= estimate
            }),
            match encoded {
                Ok(encoded) => {
                    let said = crate::domain::sst_directory::directory_rows(rows@);
                    let value = crate::domain::sst_directory::directory_archive(key, said);
                    let bytes = shared_bytes(encoded.bytes);
                    &&& encoded.key == key
                    &&& encoded.agrees()
                    &&& crate::domain::sst_directory::directory_encode_error(key, said) is None
                    &&& bytes == crate::domain::archive::directory_archive_bytes(value)
                    &&& crate::domain::archive::directory_archive_value(bytes) == Some(value)
                },
                Err(error) => crate::domain::sst_directory::directory_encode_error(
                    key,
                    crate::domain::sst_directory::directory_rows(rows@),
                ) == Some(error),
            },
    {
        match encode_directory_sst(&key, rows) {
            Ok(bytes) => Ok(Self::from_encoded(key, bytes)),
            Err(error) => Err(error),
        }
    }

    /// Encodes checked Ledger rows for `key`.
    pub fn encode_ledger(key: TableKey, rows: &[(StreamUid, LedgerCell)]) -> (encoded: Result<
        Self,
        SstEncodeError,
    >)
        ensures
            ({
                let said = crate::domain::sst_ledger::ledger_rows(rows@);
                let estimate = crate::domain::sst_ledger::ledger_estimate(said);
                crate::domain::sst_ledger::cells_fit(said) ==> {
                    &&& key.object.store == StoreKind::Ledger && 0 < rows@.len()
                        && crate::domain::sst_ledger::ledger_ordered(said) && estimate
                        <= SST_OBJECT_BYTES_MAX ==> encoded is Ok
                    &&& encoded matches Ok(encoded) ==> encoded.table.object_bytes <= estimate
                }
            }),
            match encoded {
                Ok(encoded) => {
                    let said = crate::domain::sst_ledger::ledger_rows(rows@);
                    let value = crate::domain::sst_ledger::ledger_archive(key, said);
                    let bytes = shared_bytes(encoded.bytes);
                    &&& encoded.key == key
                    &&& encoded.agrees()
                    &&& crate::domain::sst_ledger::ledger_encode_error(key, said) is None
                    &&& bytes == crate::domain::archive::ledger_archive_bytes(value)
                    &&& crate::domain::archive::ledger_archive_value(bytes) == Some(value)
                },
                Err(error) => crate::domain::sst_ledger::ledger_encode_error(
                    key,
                    crate::domain::sst_ledger::ledger_rows(rows@),
                ) == Some(error),
            },
    {
        match encode_ledger_sst(&key, rows) {
            Ok(bytes) => Ok(Self::from_encoded(key, bytes)),
            Err(error) => Err(error),
        }
    }

    fn from_encoded(key: TableKey, encoded: Vec<u8>) -> (table: Self)
        requires
            0 < encoded@.len() <= SST_OBJECT_BYTES_MAX_USIZE,
        ensures
            table.key == key,
            table.agrees(),
            shared_bytes(table.bytes) == encoded@,
    {
        let object_bytes: u64 = encoded.len() as u64;
        EncodedTable {
            key,
            table: TableRef { object: key.object, object_bytes },
            bytes: share(encoded),
        }
    }

    pub fn key(&self) -> (key: TableKey)
        ensures
            key == self.key,
    {
        self.key
    }

    pub fn table(&self) -> (table: TableRef)
        ensures
            table == self.table,
    {
        self.table
    }

    pub fn bytes(&self) -> (bytes: &bytes::Bytes)
        ensures
            *bytes == self.bytes,
    {
        &self.bytes
    }
}

/// Checked rows decoded from either supported SST kind.
#[derive(Debug, PartialEq, Eq)]
pub enum DecodedTable {
    Directory(Vec<(DirectoryKey, DirectoryEntry)>),
    Ledger(Vec<(StreamUid, LedgerCell)>),
}

/// What decoded rows say.
pub enum RowsModel {
    Directory(Seq<(Seq<u8>, DirectoryEntry)>),
    Ledger(Seq<(StreamUid, Option<RecordModel>)>),
}

impl View for DecodedTable {
    type V = RowsModel;

    open spec fn view(&self) -> RowsModel {
        match *self {
            DecodedTable::Directory(rows) => RowsModel::Directory(
                crate::domain::sst_directory::directory_rows(rows@),
            ),
            DecodedTable::Ledger(rows) => RowsModel::Ledger(
                crate::domain::sst_ledger::ledger_rows(rows@),
            ),
        }
    }
}

impl RowsModel {
    /// At least one row, in strict order, each inside the protocol's bounds.
    pub open spec fn wf(self) -> bool {
        match self {
            RowsModel::Directory(rows) => {
                &&& rows.len() > 0
                &&& crate::domain::sst_directory::directory_ordered(rows)
                &&& crate::domain::sst_directory::directory_rows_wf(rows)
            },
            RowsModel::Ledger(rows) => {
                &&& rows.len() > 0
                &&& crate::domain::sst_ledger::ledger_ordered(rows)
                &&& crate::domain::sst_ledger::ledger_rows_wf(rows)
            },
        }
    }
}

} // verus!
