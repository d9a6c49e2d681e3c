//! Shared gates of sorted-string tables.

use vstd::prelude::*;

use crate::domain::archive::EncodeError;
use crate::domain::bounds::{PARTITION_PATH_OCCUPANCIES_MAX_V2, SST_OBJECT_BYTES_MAX_USIZE};
use crate::domain::coordinate::SealGeneration;
use crate::domain::table::{AttemptId, FreshIdentity};
use crate::domain::text::number_text;

verus! {

/// Why rows form no table.
#[derive(Debug, Clone, Copy, PartialEq, Eq, Structural)]
pub enum SstEncodeError {
    StoreMismatch,
    EmptyTable,
    RowsNotStrictlyOrdered,
    Serialization,
    EncodedBytesOverMax,
}

impl SstEncodeError {
    pub open spec fn spec_message(self) -> Seq<char> {
        match self {
            SstEncodeError::StoreMismatch => "table key names the wrong store for this SST root"@,
            SstEncodeError::EmptyTable => "SST must contain at least one row"@,
            SstEncodeError::RowsNotStrictlyOrdered => "SST rows are not strictly ordered"@,
            SstEncodeError::Serialization => "SST could not be archived"@,
            SstEncodeError::EncodedBytesOverMax => "SST exceeds the 134217728-byte bound"@,
        }
    }

    /// The message shown for this failure.
    pub fn to_string(&self) -> (message: String)
        ensures
            message@ == self.spec_message(),
    {
        let text = match *self {
            SstEncodeError::StoreMismatch => "table key names the wrong store for this SST root",
            SstEncodeError::EmptyTable => "SST must contain at least one row",
            SstEncodeError::RowsNotStrictlyOrdered => "SST rows are not strictly ordered",
            SstEncodeError::Serialization => "SST could not be archived",
            SstEncodeError::EncodedBytesOverMax => "SST exceeds the 134217728-byte bound",
        };
        String::from_str(text)
    }
}

impl From<EncodeError> for SstEncodeError {
    fn from(error: EncodeError) -> (encode: Self) {
        match error {
            EncodeError::Serialization => SstEncodeError::Serialization,
            EncodeError::EncodedBytesOverMax { bytes_max: _ } => SstEncodeError::EncodedBytesOverMax,
        }
    }
}

impl vstd::std_specs::convert::FromSpecImpl<EncodeError> for SstEncodeError {
    open spec fn obeys_from_spec() -> bool {
        true
    }

    open spec fn from_spec(error: EncodeError) -> Self {
        match error {
            EncodeError::Serialization => SstEncodeError::Serialization,
            EncodeError::EncodedBytesOverMax { bytes_max: _ } => SstEncodeError::EncodedBytesOverMax,
        }
    }
}

/// Why bytes hold no table.
#[derive(Debug, Clone, Copy, PartialEq, Eq, Structural)]
pub enum SstDecodeError {
    EncodedBytesOverMax { bytes_actual: u64 },
    MalformedArchive,
    InvalidBody,
    IdentityMismatch,
    StoreMismatch,
    ResourceBound,
}

impl SstDecodeError {
    pub open spec fn spec_message(self) -> Seq<char> {
        match self {
            SstDecodeError::EncodedBytesOverMax { bytes_actual } => "SST is "@
                + crate::domain::text::number_chars(bytes_actual as nat)
                + " bytes; the bound is 134217728"@,
            SstDecodeError::MalformedArchive => "SST archive is structurally malformed"@,
            SstDecodeError::InvalidBody => "SST body violates a domain invariant"@,
            SstDecodeError::IdentityMismatch =>
                "SST body identity differs from the durable table key"@,
            SstDecodeError::StoreMismatch => "table key names the wrong store for this SST root"@,
            SstDecodeError::ResourceBound => "SST exceeds a decoded resource bound"@,
        }
    }

    /// The message shown for this failure.
    pub fn to_string(&self) -> (message: String)
        ensures
            message@ == self.spec_message(),
    {
        let text = match *self {
            SstDecodeError::EncodedBytesOverMax { bytes_actual } => {
                let mut message = String::from_str("SST is ");
                message.append(number_text(bytes_actual).as_str());
                message.append(" bytes; the bound is 134217728");
                return message;
            },
            SstDecodeError::MalformedArchive => "SST archive is structurally malformed",
            SstDecodeError::InvalidBody => "SST body violates a domain invariant",
            SstDecodeError::IdentityMismatch =>
                "SST body identity differs from the durable table key",
            SstDecodeError::StoreMismatch => "table key names the wrong store for this SST root",
            SstDecodeError::ResourceBound => "SST exceeds a decoded resource bound",
        };
        String::from_str(text)
    }
}

/// Too many rows for one table, or more archived row bytes than one object holds.
pub open spec fn rows_over_max(rows_len: nat, row_bytes: nat) -> bool {
    rows_len > PARTITION_PATH_OCCUPANCIES_MAX_V2 || rows_len * row_bytes > SST_OBJECT_BYTES_MAX_USIZE
}

/// Refuses impossible row counts before any row is looked at.
pub fn check_encode_rows(rows_len: usize, row_bytes: usize) -> (checked: Result<(), SstEncodeError>)
    ensures
        match checked {
            Ok(_) => !rows_over_max(rows_len as nat, row_bytes as nat),
            Err(error) => error == SstEncodeError::EncodedBytesOverMax && rows_over_max(
                rows_len as nat,
                row_bytes as nat,
            ),
        },
{
    if rows_len as u64 > PARTITION_PATH_OCCUPANCIES_MAX_V2 {
        return Err(SstEncodeError::EncodedBytesOverMax);
    }
    match rows_len.checked_mul(row_bytes) {
        Some(archived_rows_bytes) => if archived_rows_bytes > SST_OBJECT_BYTES_MAX_USIZE {
            Err(SstEncodeError::EncodedBytesOverMax)
        } else {
            Ok(())
        },
        None => Err(SstEncodeError::EncodedBytesOverMax),
    }
}

/// Checks the complete length of a table object before anything reads it.
pub fn check_decode_bound(bytes: &[u8]) -> (checked: Result<(), SstDecodeError>)
    ensures
        match checked {
            Ok(_) => bytes@.len() <= SST_OBJECT_BYTES_MAX_USIZE,
            Err(error) => bytes@.len() > SST_OBJECT_BYTES_MAX_USIZE && error
                == (SstDecodeError::EncodedBytesOverMax { bytes_actual: bytes@.len() as u64 }),
        },
{
    if bytes.len() > SST_OBJECT_BYTES_MAX_USIZE {
        return Err(SstDecodeError::EncodedBytesOverMax { bytes_actual: bytes.len() as u64 });
    }
    Ok(())
}

/// The plain values that a table identity is archived as.
pub open spec fn fresh_archive(fresh: FreshIdentity) -> (u64, u64, u64, u32) {
    (
        fresh.birth_generation.value,
        fresh.attempt.owner_claim.value,
        fresh.attempt.local_counter,
        fresh.ordinal,
    )
}

/// The table identity that archived plain values say.
pub open spec fn archived_fresh(raw: (u64, u64, u64, u32)) -> FreshIdentity {
    FreshIdentity {
        birth_generation: SealGeneration { value: raw.0 },
        attempt: AttemptId {
            owner_claim: SealGeneration { value: raw.1 },
            local_counter: raw.2,
        },
        ordinal: raw.3,
    }
}

pub fn encode_fresh(fresh: FreshIdentity) -> (raw: (u64, u64, u64, u32))
    ensures
        raw == fresh_archive(fresh),
{
    (
        fresh.birth_generation.value,
        fresh.attempt.owner_claim.value,
        fresh.attempt.local_counter,
        fresh.ordinal,
    )
}

/// Reads an archived table identity; fails unless the claim predates the birth.
pub fn decode_fresh(raw: (u64, u64, u64, u32)) -> (fresh: Option<FreshIdentity>)
    requires
        raw.0 != 0,
        raw.1 != 0,
    ensures
        fresh is Some == archived_fresh(raw).wf(),
        fresh matches Some(fresh) ==> fresh == archived_fresh(raw),
{
    let attempt = AttemptId::new(SealGeneration { value: raw.1 }, raw.2);
    match FreshIdentity::new(SealGeneration { value: raw.0 }, attempt, raw.3) {
        Ok(fresh) => Some(fresh),
        Err(_order) => None,
    }
}

} // verus!
