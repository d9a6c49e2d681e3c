//! Typed store decisions: what a listed key, a read body or the evidence of a create
//! means for Seals, log objects and tables.

use vstd::prelude::*;
use vstd::string::*;

use crate::domain::candidate::{
    shared_slice, DecodedTable, EncodedTable, EncodedWal, RowsModel,
};
use crate::domain::coordinate::BatchId;
use crate::domain::partition::PartitionId;
use crate::domain::protocol::{ProtocolField, ProtocolText};
use crate::domain::seal::{Seal, SealIdentity, SealModel, TableRef};
use crate::domain::seal_codec::{decode_seal, decode_seal_partition};
use crate::domain::spelling::{SealKey, TableKey, WalKey};
use crate::domain::sst_directory::decode_directory_sst;
use crate::domain::sst_ledger::decode_ledger_sst;
use crate::domain::table::{StoreKind, TableObjectId};
use crate::domain::text::{is_bytes_equal, number_text};
use crate::domain::wal::{WalIdentity, WalModel, WalObject};
use crate::domain::wal_codec::decode_wal;
use crate::engine::naming::{batch_text, generation_text};

verus! {

/// Why a store operation gave no answer.
#[derive(Debug, PartialEq, Eq)]
pub enum TypedStoreError {
    Retryable { detail: String },
    Rejected { detail: String },
    Contradiction { detail: String },
}

/// What a store error says.
pub enum StoreErrorModel {
    Retryable(Seq<char>),
    Rejected(Seq<char>),
    Contradiction(Seq<char>),
}

impl View for TypedStoreError {
    type V = StoreErrorModel;

    open spec fn view(&self) -> StoreErrorModel {
        match *self {
            TypedStoreError::Retryable { detail } => StoreErrorModel::Retryable(detail@),
            TypedStoreError::Rejected { detail } => StoreErrorModel::Rejected(detail@),
            TypedStoreError::Contradiction { detail } => StoreErrorModel::Contradiction(detail@),
        }
    }
}

/// What is known of a create-if-absent.
#[derive(Debug, Clone, Copy, PartialEq, Eq, Structural)]
pub enum CreateEvidence {
    /// This call created the object.
    Direct,
    /// The object holds the candidate's bytes, whoever created it.
    DurableMatch,
    /// The object holds other bytes.
    NotOurs,
    /// Nothing is known.
    Unresolved,
}

/// Whether the canonical genesis is in place.
#[derive(Debug, Clone, Copy, PartialEq, Eq, Structural)]
pub enum GenesisEstablishment {
    Established,
    LostRace,
    Unresolved,
}

/// Whether a published Seal grants authority.
#[derive(Debug, Clone, Copy, PartialEq, Eq, Structural)]
pub enum SealPublication {
    Authored,
    NoAuthority,
    Unresolved,
}

/// Whether a log object is durable at its coordinate.
#[derive(Debug, Clone, Copy, PartialEq, Eq, Structural)]
pub enum WalEstablishment {
    Durable,
    Occupied,
    UnresolvedAbsent,
}

/// Whether a table is durable under its fresh identity.
#[derive(Debug, PartialEq, Eq)]
pub enum TableEstablishment {
    Established,
    Abandoned,
    Contradiction { detail: String },
}

/// What a table establishment says.
pub enum TableEstablishmentModel {
    Established,
    Abandoned,
    Contradiction(Seq<char>),
}

impl View for TableEstablishment {
    type V = TableEstablishmentModel;

    open spec fn view(&self) -> TableEstablishmentModel {
        match *self {
            TableEstablishment::Established => TableEstablishmentModel::Established,
            TableEstablishment::Abandoned => TableEstablishmentModel::Abandoned,
            TableEstablishment::Contradiction { detail } => TableEstablishmentModel::Contradiction(
                detail@,
            ),
        }
    }
}

/// The canonical genesis is in place whoever put it there: its bytes carry no
/// authority.
pub fn establish_genesis(evidence: CreateEvidence) -> (establishment: GenesisEstablishment)
    ensures
        establishment == (match evidence {
            CreateEvidence::Direct => GenesisEstablishment::Established,
            CreateEvidence::DurableMatch => GenesisEstablishment::Established,
            CreateEvidence::NotOurs => GenesisEstablishment::LostRace,
            CreateEvidence::Unresolved => GenesisEstablishment::Unresolved,
        }),
{
    match evidence {
        CreateEvidence::Direct | CreateEvidence::DurableMatch => GenesisEstablishment::Established,
        CreateEvidence::NotOurs => GenesisEstablishment::LostRace,
        CreateEvidence::Unresolved => GenesisEstablishment::Unresolved,
    }
}

/// Only direct creation of an authority Seal grants authority: equal bytes may be
/// another claimant's.
pub fn publish_authority(evidence: CreateEvidence) -> (publication: SealPublication)
    ensures
        publication == (match evidence {
            CreateEvidence::Direct => SealPublication::Authored,
            CreateEvidence::DurableMatch => SealPublication::NoAuthority,
            CreateEvidence::NotOurs => SealPublication::NoAuthority,
            CreateEvidence::Unresolved => SealPublication::Unresolved,
        }),
{
    match evidence {
        CreateEvidence::Direct => SealPublication::Authored,
        CreateEvidence::DurableMatch | CreateEvidence::NotOurs => SealPublication::NoAuthority,
        CreateEvidence::Unresolved => SealPublication::Unresolved,
    }
}

/// What the create of a log object settles; none when one exact read must decide.
pub fn establish_wal(evidence: CreateEvidence) -> (settled: Option<WalEstablishment>)
    ensures
        settled == (match evidence {
            CreateEvidence::Direct => Some(WalEstablishment::Durable),
            CreateEvidence::DurableMatch => Some(WalEstablishment::Durable),
            CreateEvidence::NotOurs => Some(WalEstablishment::Occupied),
            CreateEvidence::Unresolved => None,
        }),
{
    match evidence {
        CreateEvidence::Direct | CreateEvidence::DurableMatch => Some(WalEstablishment::Durable),
        CreateEvidence::NotOurs => Some(WalEstablishment::Occupied),
        CreateEvidence::Unresolved => None,
    }
}

/// What one exact read after an unresolved create settles.
pub fn reconcile_wal(candidate: &EncodedWal, observed: Option<&ObservedWal>) -> (settled:
    WalEstablishment)
    ensures
        settled == (match observed {
            Some(observed) => if observed.bytes@ == crate::domain::candidate::shared_bytes(
                candidate.bytes,
            ) {
                WalEstablishment::Durable
            } else {
                WalEstablishment::Occupied
            },
            None => WalEstablishment::UnresolvedAbsent,
        }),
{
    match observed {
        Some(observed) => if is_bytes_equal(
            observed.bytes.as_slice(),
            shared_slice(&candidate.bytes),
        ) {
            WalEstablishment::Durable
        } else {
            WalEstablishment::Occupied
        },
        None => WalEstablishment::UnresolvedAbsent,
    }
}

/// What a failed store operation means for a table.
pub open spec fn failed_table(error: StoreErrorModel) -> TableEstablishmentModel {
    match error {
        StoreErrorModel::Retryable(_) => TableEstablishmentModel::Abandoned,
        StoreErrorModel::Rejected(_) => TableEstablishmentModel::Abandoned,
        StoreErrorModel::Contradiction(detail) => TableEstablishmentModel::Contradiction(detail),
    }
}

fn fail_table(error: TypedStoreError) -> (establishment: TableEstablishment)
    ensures
        establishment@ == failed_table(error@),
{
    match error {
        TypedStoreError::Retryable { .. } | TypedStoreError::Rejected { .. } =>
            TableEstablishment::Abandoned,
        TypedStoreError::Contradiction { detail } => TableEstablishment::Contradiction { detail },
    }
}

/// What the create of a table settles; none when one exact read must decide.
pub open spec fn spec_establish_table(created: Result<CreateEvidence, StoreErrorModel>) -> Option<
    TableEstablishmentModel,
> {
    match created {
        Ok(CreateEvidence::Direct) => Some(TableEstablishmentModel::Established),
        Ok(CreateEvidence::DurableMatch) => Some(TableEstablishmentModel::Established),
        Ok(CreateEvidence::NotOurs) => Some(
            TableEstablishmentModel::Contradiction(
                "foreign bytes occupy a fresh checkpoint table identity"@,
            ),
        ),
        Ok(CreateEvidence::Unresolved) => None,
        Err(error) => Some(failed_table(error)),
    }
}

/// What an outcome of the store says.
pub open spec fn outcome_model<Value>(outcome: Result<Value, TypedStoreError>) -> Result<
    Value,
    StoreErrorModel,
> {
    match outcome {
        Ok(value) => Ok(value),
        Err(error) => Err(error@),
    }
}

/// What the create of a table settles; none when one exact read must decide.
pub fn establish_table(created: Result<CreateEvidence, TypedStoreError>) -> (settled: Option<
    TableEstablishment,
>)
    ensures
        match settled {
            Some(establishment) => spec_establish_table(outcome_model(created)) == Some(
                establishment@,
            ),
            None => spec_establish_table(outcome_model(created)) is None,
        },
{
    match created {
        Ok(CreateEvidence::Direct) | Ok(CreateEvidence::DurableMatch) => Some(
            TableEstablishment::Established,
        ),
        Ok(CreateEvidence::NotOurs) => Some(
            TableEstablishment::Contradiction {
                detail: String::from_str("foreign bytes occupy a fresh checkpoint table identity"),
            },
        ),
        Ok(CreateEvidence::Unresolved) => None,
        Err(error) => Some(fail_table(error)),
    }
}

/// What an exact read of a candidate table found.
#[derive(Debug, Clone, Copy, PartialEq, Eq, Structural)]
pub enum CandidateTableEvidence {
    Match,
    Foreign,
    Absent,
}

/// Compares what an exact read found with the candidate.
pub fn compare_table(candidate: &EncodedTable, body: Option<&[u8]>) -> (evidence:
    CandidateTableEvidence)
    ensures
        evidence == (match body {
            Some(body) => if body@ == crate::domain::candidate::shared_bytes(candidate.bytes) {
                CandidateTableEvidence::Match
            } else {
                CandidateTableEvidence::Foreign
            },
            None => CandidateTableEvidence::Absent,
        }),
{
    match body {
        Some(body) => if is_bytes_equal(body, shared_slice(&candidate.bytes)) {
            CandidateTableEvidence::Match
        } else {
            CandidateTableEvidence::Foreign
        },
        None => CandidateTableEvidence::Absent,
    }
}

pub open spec fn spec_reconcile_table(
    evidence: Result<CandidateTableEvidence, StoreErrorModel>,
) -> TableEstablishmentModel {
    match evidence {
        Ok(CandidateTableEvidence::Match) => TableEstablishmentModel::Established,
        Ok(CandidateTableEvidence::Foreign) => TableEstablishmentModel::Contradiction(
            "an unresolved fresh checkpoint table contains foreign bytes"@,
        ),
        Ok(CandidateTableEvidence::Absent) => TableEstablishmentModel::Abandoned,
        Err(error) => failed_table(error),
    }
}

/// What one exact read after an unresolved create settles.
pub fn reconcile_table(evidence: Result<CandidateTableEvidence, TypedStoreError>) -> (settled:
    TableEstablishment)
    ensures
        settled@ == spec_reconcile_table(outcome_model(evidence)),
{
    match evidence {
        Ok(CandidateTableEvidence::Match) => TableEstablishment::Established,
        Ok(CandidateTableEvidence::Foreign) => TableEstablishment::Contradiction {
            detail: String::from_str("an unresolved fresh checkpoint table contains foreign bytes"),
        },
        Ok(CandidateTableEvidence::Absent) => TableEstablishment::Abandoned,
        Err(error) => fail_table(error),
    }
}

// Listings

/// The Seal that the first listed key of a Seal namespace names.
pub open spec fn spec_newest_seal(listed: Option<&str>) -> Result<
    Option<SealIdentity>,
    StoreErrorModel,
> {
    match listed {
        None => Ok(None),
        Some(listed) => match SealKey::spec_parse(listed.spec_bytes()) {
            Ok(key) => Ok(Some(key.identity)),
            Err(source) => Err(
                StoreErrorModel::Contradiction(
                    "listed key "@ + listed@ + " under the Seal namespace is not a Seal key: "@
                        + source.spec_message(),
                ),
            ),
        },
    }
}

/// Reads the newest Seal off the first listed key; a key that is no Seal key is a
/// contradiction.
pub fn newest_seal(listed: Option<&str>) -> (newest: Result<Option<SealIdentity>, TypedStoreError>)
    ensures
        match newest {
            Ok(newest) => spec_newest_seal(listed) == Ok::<_, StoreErrorModel>(newest),
            Err(error) => spec_newest_seal(listed) == Err::<Option<SealIdentity>, _>(error@),
        },
        newest matches Ok(Some(identity)) ==> identity.wf(),
{
    match listed {
        None => Ok(None),
        Some(listed) => match SealKey::parse_text(listed) {
            Ok(key) => Ok(Some(key.identity())),
            Err(source) => {
                let mut detail = String::from_str("listed key ");
                detail.append(listed);
                detail.append(" under the Seal namespace is not a Seal key: ");
                detail.append(source.to_string().as_str());
                Err(TypedStoreError::Contradiction { detail })
            },
        },
    }
}

/// The log object that the first listed key of a WAL namespace names.
pub open spec fn spec_newest_surviving_wal(listed: Option<&str>) -> Result<
    Option<WalIdentity>,
    StoreErrorModel,
> {
    match listed {
        None => Ok(None),
        Some(listed) => match WalKey::spec_parse(listed.spec_bytes()) {
            Ok(key) => Ok(Some(key.identity)),
            Err(source) => Err(
                StoreErrorModel::Contradiction(
                    "listed key "@ + listed@ + " under the WAL namespace is not a WAL key: "@
                        + source.spec_message(),
                ),
            ),
        },
    }
}

/// Reads the newest surviving log object off the first listed key; a key that is no
/// WAL key is a contradiction.
pub fn newest_surviving_wal(listed: Option<&str>) -> (newest: Result<
    Option<WalIdentity>,
    TypedStoreError,
>)
    ensures
        match newest {
            Ok(newest) => spec_newest_surviving_wal(listed) == Ok::<_, StoreErrorModel>(newest),
            Err(error) => spec_newest_surviving_wal(listed) == Err::<Option<WalIdentity>, _>(
                error@,
            ),
        },
        newest matches Ok(Some(identity)) ==> identity.wf(),
{
    match listed {
        None => Ok(None),
        Some(listed) => match WalKey::parse_text(listed) {
            Ok(key) => Ok(Some(key.identity())),
            Err(source) => {
                let mut detail = String::from_str("listed key ");
                detail.append(listed);
                detail.append(" under the WAL namespace is not a WAL key: ");
                detail.append(source.to_string().as_str());
                Err(TypedStoreError::Contradiction { detail })
            },
        },
    }
}

// Bodies

/// The Seal that a read body holds; a body that fails its checks is a contradiction,
/// never absence.
pub open spec fn spec_read_seal(identity: SealIdentity, body: Option<Seq<u8>>) -> Result<
    Option<SealModel>,
    StoreErrorModel,
> {
    match body {
        None => Ok(None),
        Some(body) => match crate::domain::seal_codec::spec_decode_seal(identity, body) {
            Ok(seal) => Ok(Some(seal)),
            Err(source) => Err(
                StoreErrorModel::Contradiction(
                    "Seal body at "@ + crate::domain::text::ascii_chars(
                        (SealKey { identity }).spelling(),
                    ) + " failed checked decode for "@ + crate::engine::naming::generation_chars(
                        identity.generation,
                    ) + ": "@ + source.spec_message(),
                ),
            ),
        },
    }
}

/// Checks a read Seal body against the exact identity that was asked for.
pub fn read_seal(identity: &SealIdentity, body: Option<&[u8]>) -> (seal: Result<
    Option<Seal>,
    TypedStoreError,
>)
    ensures
        ({
            let said = match body {
                Some(body) => Some(body@),
                None => None,
            };
            match seal {
                Ok(Some(seal)) => spec_read_seal(*identity, said) == Ok::<_, StoreErrorModel>(
                    Some(seal@),
                ) && seal.wf() && seal@.identity() == *identity,
                Ok(None) => body is None,
                Err(error) => spec_read_seal(*identity, said) == Err::<Option<SealModel>, _>(
                    error@,
                ),
            }
        }),
{
    let body = match body {
        None => {
            return Ok(None);
        },
        Some(body) => body,
    };
    match decode_seal(identity, body) {
        Ok(seal) => Ok(Some(seal)),
        Err(source) => {
            let key = SealKey { identity: *identity };
            let mut detail = String::from_str("Seal body at ");
            detail.append(key.to_string().as_str());
            detail.append(" failed checked decode for ");
            detail.append(generation_text(identity.generation).as_str());
            detail.append(": ");
            detail.append(source.to_string().as_str());
            Err(TypedStoreError::Contradiction { detail })
        },
    }
}

/// The partition that the newest listed Seal names: its octets. A listed Seal that is
/// absent, or names no partition, is a contradiction.
pub open spec fn spec_head_partition(listed: Seq<char>, body: Option<Seq<u8>>) -> Result<
    Seq<u8>,
    StoreErrorModel,
> {
    match body {
        None => Err(
            StoreErrorModel::Contradiction("listed Seal "@ + listed + " is absent"@),
        ),
        Some(body) => match crate::domain::seal_codec::spec_seal_partition(body) {
            Ok(octets) => Ok(octets),
            Err(source) => Err(
                StoreErrorModel::Contradiction(
                    "Seal body at "@ + listed + " names no partition: "@ + source.spec_message(),
                ),
            ),
        },
    }
}

/// Reads which partition a store holds off its newest Seal.
pub fn head_partition(listed: &str, body: Option<&[u8]>) -> (partition: Result<
    PartitionId,
    TypedStoreError,
>)
    ensures
        ({
            let said = match body {
                Some(body) => Some(body@),
                None => None,
            };
            match partition {
                Ok(partition) => spec_head_partition(listed@, said) == Ok::<_, StoreErrorModel>(
                    partition.octets@,
                ) && partition.wf(),
                Err(error) => spec_head_partition(listed@, said) == Err::<Seq<u8>, _>(error@),
            }
        }),
{
    let body = match body {
        None => {
            let mut detail = String::from_str("listed Seal ");
            detail.append(listed);
            detail.append(" is absent");
            return Err(TypedStoreError::Contradiction { detail });
        },
        Some(body) => body,
    };
    match decode_seal_partition(body) {
        Ok(partition) => Ok(partition),
        Err(source) => {
            let mut detail = String::from_str("Seal body at ");
            detail.append(listed);
            detail.append(" names no partition: ");
            detail.append(source.to_string().as_str());
            Err(TypedStoreError::Contradiction { detail })
        },
    }
}

/// One decoded log object with its exact bytes and the validator that observed it.
#[derive(Debug, PartialEq, Eq)]
pub struct ObservedWal {
    pub object: WalObject,
    pub validator: String,
    pub bytes: Vec<u8>,
}

/// The log object that a read body holds; a body that fails its checks is a
/// contradiction, never absence.
pub open spec fn spec_read_wal(
    identity: WalIdentity,
    body: Option<Seq<u8>>,
    accepts: spec_fn(ProtocolText) -> bool,
) -> Result<Option<WalModel>, StoreErrorModel> {
    match body {
        None => Ok(None),
        Some(body) => match crate::domain::wal_codec::spec_decode_wal(identity, body, accepts) {
            Ok(object) => Ok(Some(object)),
            Err(source) => Err(
                StoreErrorModel::Contradiction(
                    "WAL body at "@ + crate::domain::text::ascii_chars(
                        (WalKey { identity }).spelling(),
                    ) + " failed checked decode for "@ + crate::domain::text::ascii_chars(
                        crate::domain::partition::uuid_text(identity.partition.octets@),
                    ) + "/"@ + crate::engine::naming::batch_chars(identity.batch) + ": "@
                        + source.spec_message(),
                ),
            ),
        },
    }
}

/// What a read body holds.
pub open spec fn body_bytes(body: Option<(Vec<u8>, String)>) -> Option<Seq<u8>> {
    match body {
        Some((bytes, _)) => Some(bytes@),
        None => None,
    }
}

/// Checks a read log body against the exact identity that was asked for.
pub fn read_wal<Grammar: Fn(ProtocolField<'_>) -> bool>(
    identity: &WalIdentity,
    body: Option<(Vec<u8>, String)>,
    grammar: &Grammar,
) -> (observed: Result<Option<ObservedWal>, TypedStoreError>)
    requires
        crate::domain::protocol::is_total(*grammar),
    ensures
        observed matches Ok(Some(observed)) ==> {
            &&& observed.object@.wf()
            &&& observed.object@.identity() == *identity
            &&& body == Some((observed.bytes, observed.validator))
        },
        observed matches Ok(None) ==> body is None,
        forall|accepts: spec_fn(ProtocolText) -> bool|
            #[trigger] crate::domain::protocol::decides(*grammar, accepts) ==> match observed {
                Ok(Some(observed)) => spec_read_wal(*identity, body_bytes(body), accepts) == Ok::<
                    _,
                    StoreErrorModel,
                >(Some(observed.object@)),
                Ok(None) => body is None,
                Err(error) => spec_read_wal(*identity, body_bytes(body), accepts) == Err::<
                    Option<WalModel>,
                    _,
                >(error@),
            },
{
    let (bytes, validator) = match body {
        None => {
            return Ok(None);
        },
        Some(body) => body,
    };
    match decode_wal(identity, bytes.as_slice(), grammar) {
        Ok(object) => Ok(Some(ObservedWal { object, validator, bytes })),
        Err(source) => {
            let key = WalKey { identity: *identity };
            let mut detail = String::from_str("WAL body at ");
            detail.append(key.to_string().as_str());
            detail.append(" failed checked decode for ");
            detail.append(identity.partition.to_string().as_str());
            detail.append("/");
            detail.append(batch_text(identity.batch).as_str());
            detail.append(": ");
            detail.append(source.to_string().as_str());
            Err(TypedStoreError::Contradiction { detail })
        },
    }
}

/// Proof that one decoded, collectible RUN was observed. A FENCE is permanent and
/// constructs none.
#[derive(Debug, PartialEq, Eq)]
pub struct AuthorizedWalRunDelete {
    pub batch: BatchId,
    pub validator: String,
}

/// Why an observation cannot become a collector's delete proof.
#[derive(Debug, Clone, Copy, PartialEq, Eq, Structural)]
pub enum WalDeleteRefusal {
    Fence { batch: BatchId },
}

impl WalDeleteRefusal {
    /// The message shown for this refusal.
    pub fn to_string(&self) -> (message: String)
        ensures
            message@ == "WAL fence cannot become a delete proof"@,
    {
        String::from_str("WAL fence cannot become a delete proof")
    }
}

impl ObservedWal {
    pub fn into_object(self) -> (object: WalObject)
        ensures
            object == self.object,
    {
        self.object
    }

    /// Turns the observation of a RUN into a delete proof; a FENCE is refused.
    pub fn into_run_delete(self) -> (proof_of_run: Result<AuthorizedWalRunDelete, WalDeleteRefusal>)
        ensures
            match proof_of_run {
                Ok(authorized) => {
                    &&& self.object@.facts is Some
                    &&& authorized.batch == self.object@.batch
                    &&& authorized.validator == self.validator
                },
                Err(refusal) => self.object@.facts is None && refusal == (WalDeleteRefusal::Fence {
                    batch: self.object@.batch,
                }),
            },
    {
        let batch = self.object.identity().batch;
        match self.object {
            WalObject::Run(_run) => Ok(AuthorizedWalRunDelete { batch, validator: self.validator }),
            WalObject::Fence(_fence) => Err(WalDeleteRefusal::Fence { batch }),
        }
    }
}

/// The rows of a selected table: the body must have exactly the length that its Seal
/// records and hold a table of the selected store.
pub open spec fn spec_read_table(
    key: TableKey,
    table: TableRef,
    body: Option<Seq<u8>>,
    accepts: spec_fn(ProtocolText) -> bool,
) -> Result<RowsModel, StoreErrorModel> {
    let name = crate::domain::text::ascii_chars(key.spelling());
    match body {
        None => Err(
            StoreErrorModel::Contradiction("Seal-selected table "@ + name + " is absent"@),
        ),
        Some(body) => if body.len() != table.object_bytes {
            Err(
                StoreErrorModel::Contradiction(
                    "table "@ + name + " has "@ + crate::domain::text::number_chars(body.len())
                        + " bytes; its Seal records "@ + crate::domain::text::number_chars(
                        table.object_bytes as nat,
                    ),
                ),
            )
        } else {
            match key.object.store {
                StoreKind::Directory => match crate::domain::sst_directory::spec_decode_directory_sst(
                    key,
                    body,
                    accepts,
                ) {
                    Ok(rows) => Ok(RowsModel::Directory(rows)),
                    Err(source) => Err(
                        StoreErrorModel::Contradiction(
                            "Directory table "@ + name + " failed checked decode: "@
                                + source.spec_message(),
                        ),
                    ),
                },
                StoreKind::Ledger => match crate::domain::sst_ledger::spec_decode_ledger_sst(
                    key,
                    body,
                    accepts,
                ) {
                    Ok(rows) => Ok(RowsModel::Ledger(rows)),
                    Err(source) => Err(
                        StoreErrorModel::Contradiction(
                            "Ledger table "@ + name + " failed checked decode: "@
                                + source.spec_message(),
                        ),
                    ),
                },
                _ => Err(
                    StoreErrorModel::Contradiction(
                        "table "@ + name + " names a store with no resident decoder"@,
                    ),
                ),
            }
        },
    }
}

/// Checks the read body of a selected table against its reference and its key.
pub fn read_table<Grammar: Fn(ProtocolField<'_>) -> bool>(
    partition: PartitionId,
    table: &TableRef,
    body: Option<&[u8]>,
    grammar: &Grammar,
) -> (rows: Result<DecodedTable, TypedStoreError>)
    requires
        crate::domain::protocol::is_total(*grammar),
    ensures
        rows matches Ok(rows) ==> rows@.wf() && (rows is Directory == (table.object.store
            == StoreKind::Directory)),
        ({
            let key = TableKey { partition, object: table.object };
            let said = match body {
                Some(body) => Some(body@),
                None => None,
            };
            forall|accepts: spec_fn(ProtocolText) -> bool|
                #[trigger] crate::domain::protocol::decides(*grammar, accepts) ==> match rows {
                    Ok(rows) => spec_read_table(key, *table, said, accepts) == Ok::<
                        _,
                        StoreErrorModel,
                    >(rows@),
                    Err(error) => spec_read_table(key, *table, said, accepts) == Err::<RowsModel, _>(
                        error@,
                    ),
                }
        }),
{
    let key = TableKey::new(partition, table.object());
    let body = match body {
        None => {
            let mut detail = String::from_str("Seal-selected table ");
            detail.append(key.to_string().as_str());
            detail.append(" is absent");
            return Err(TypedStoreError::Contradiction { detail });
        },
        Some(body) => body,
    };
    let bytes_actual: u64 = body.len() as u64;
    if bytes_actual != table.object_bytes {
        let mut detail = String::from_str("table ");
        detail.append(key.to_string().as_str());
        detail.append(" has ");
        detail.append(number_text(bytes_actual).as_str());
        detail.append(" bytes; its Seal records ");
        detail.append(number_text(table.object_bytes).as_str());
        return Err(TypedStoreError::Contradiction { detail });
    }
    match table.object.store {
        StoreKind::Directory => match decode_directory_sst(&key, body, grammar) {
            Ok(rows) => Ok(DecodedTable::Directory(rows)),
            Err(source) => {
                let mut detail = String::from_str("Directory table ");
                detail.append(key.to_string().as_str());
                detail.append(" failed checked decode: ");
                detail.append(source.to_string().as_str());
                Err(TypedStoreError::Contradiction { detail })
            },
        },
        StoreKind::Ledger => match decode_ledger_sst(&key, body, grammar) {
            Ok(rows) => Ok(DecodedTable::Ledger(rows)),
            Err(source) => {
                let mut detail = String::from_str("Ledger table ");
                detail.append(key.to_string().as_str());
                detail.append(" failed checked decode: ");
                detail.append(source.to_string().as_str());
                Err(TypedStoreError::Contradiction { detail })
            },
        },
        StoreKind::Tally | StoreKind::Annals => {
            let mut detail = String::from_str("table ");
            detail.append(key.to_string().as_str());
            detail.append(" names a store with no resident decoder");
            Err(TypedStoreError::Contradiction { detail })
        },
    }
}

/// Proof that one table was selected by a source Seal and is not by its successor.
#[derive(Debug, Clone, Copy, PartialEq, Eq, Structural)]
pub struct AuthorizedTableDelete {
    pub object: TableObjectId,
}

/// Some table is this object.
pub open spec fn has_object(tables: Seq<TableRef>, object: TableObjectId) -> bool {
    exists|i: int| 0 <= i < tables.len() && (#[trigger] tables[i]).object == object
}

/// The objects of source tables that are no successor table's, in order.
pub open spec fn dropped_objects(source: Seq<TableRef>, successor: Seq<TableRef>) -> Seq<
    AuthorizedTableDelete,
>
    decreases source.len(),
{
    if source.len() == 0 {
        Seq::empty()
    } else {
        let rest = dropped_objects(source.drop_last(), successor);
        let object = source.last().object;
        if has_object(successor, object) {
            rest
        } else {
            rest.push(AuthorizedTableDelete { object })
        }
    }
}

fn contains_object(tables: &Vec<TableRef>, object: TableObjectId) -> (found: bool)
    ensures
        found == has_object(tables@, object),
{
    let mut at: usize = 0;
    while at < tables.len()
        invariant
            at <= tables.len(),
            forall|i: int| 0 <= i < at ==> (#[trigger] tables@[i]).object != object,
        decreases tables.len() - at,
    {
        if tables[at].object == object {
            assert(tables@[at as int].object == object);
            return true;
        }
        at += 1;
    }
    false
}

/// The tables that an advance from `source` to `successor` drops. A table that the
/// successor still selects is never among them.
pub fn targeted_table_deletes(source: &Seal, successor: &Seal) -> (deletes: Vec<
    AuthorizedTableDelete,
>)
    ensures
        deletes@ == dropped_objects(source@.tables(), successor@.tables()),
{
    let tables = source.tables();
    let kept = successor.tables();
    let mut deletes: Vec<AuthorizedTableDelete> = Vec::new();
    let mut at: usize = 0;
    assert(tables@.take(0) =~= Seq::empty());
    while at < tables.len()
        invariant
            at <= tables.len(),
            kept@ == successor@.tables(),
            deletes@ == dropped_objects(tables@.take(at as int), kept@),
        decreases tables.len() - at,
    {
        let object = tables[at].object;
        proof {
            assert(tables@.take(at + 1).drop_last() =~= tables@.take(at as int));
            assert(tables@.take(at + 1).last() == tables@[at as int]);
        }
        if !contains_object(&kept, object) {
            deletes.push(AuthorizedTableDelete { object });
        }
        at += 1;
    }
    assert(tables@.take(at as int) =~= tables@);
    deletes
}

/// A collected table is one that the source selects and the successor does not, and
/// every such table is collected.
pub proof fn law_deletes_are_exactly_the_dropped_tables(
    source: Seq<TableRef>,
    successor: Seq<TableRef>,
    object: TableObjectId,
)
    ensures
        dropped_objects(source, successor).contains(AuthorizedTableDelete { object }) <==> (
        has_object(source, object) && !has_object(successor, object)),
    decreases source.len(),
{
    let deletes = dropped_objects(source, successor);
    let target = AuthorizedTableDelete { object };
    if source.len() > 0 {
        let rest = dropped_objects(source.drop_last(), successor);
        law_deletes_are_exactly_the_dropped_tables(source.drop_last(), successor, object);
        let last = AuthorizedTableDelete { object: source.last().object };
        if !has_object(successor, last.object) {
            assert(deletes == rest.push(last));
            assert(deletes[rest.len() as int] == last);
            if rest.contains(target) {
                let k = choose|k: int| 0 <= k < rest.len() && rest[k] == target;
                assert(deletes[k] == target);
            }
            if deletes.contains(target) {
                let k = choose|k: int| 0 <= k < deletes.len() && deletes[k] == target;
                if k < rest.len() {
                    assert(rest[k] == target);
                }
            }
        }
        if has_object(source, object) {
            let k = choose|k: int| 0 <= k < source.len() && (#[trigger] source[k]).object == object;
            if k < source.len() - 1 {
                assert(source.drop_last()[k].object == object);
            }
        }
        if has_object(source.drop_last(), object) {
            let k = choose|k: int|
                0 <= k < source.drop_last().len() && (#[trigger] source.drop_last()[k]).object
                    == object;
            assert(source[k].object == object);
        }
        if object == source.last().object {
            assert(source[source.len() - 1].object == object);
        }
    }
}

} // verus!
