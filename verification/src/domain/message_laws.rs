//! What failures of the domain read as.

use vstd::prelude::*;

use crate::domain::candidate::SealCandidateError;
use crate::domain::coordinate::{CoordinateExhausted, ZeroCoordinate};
use crate::domain::directory::DirectoryKeyError;
use crate::domain::partition::PartitionIdError;
use crate::domain::seal::SealError;
use crate::domain::spelling::KeySpellingError;
use crate::domain::sst::{SstDecodeError, SstEncodeError};
use crate::domain::table::TableIdentityError;
use crate::domain::wal::BoundedNonEmptyVecError;

verus! {

/// What a value that could not be archived reads as.
pub proof fn law_archive_encode_messages(error: crate::domain::archive::EncodeError, message: String)
    requires
        call_ensures(crate::domain::archive::EncodeError::to_string, (&error,), message),
    ensures
        message@ == (match error {
            crate::domain::archive::EncodeError::Serialization => "domain value could not be archived"@,
            crate::domain::archive::EncodeError::EncodedBytesOverMax { bytes_max } => "encoded value exceeds the "@
                + crate::domain::text::number_chars(bytes_max as nat) + "-byte bound"@,
        }),
{
}

/// What an archive that could not be read reads as.
pub proof fn law_archive_decode_messages(error: crate::domain::archive::DecodeError, message: String)
    requires
        call_ensures(crate::domain::archive::DecodeError::to_string, (&error,), message),
    ensures
        message@ == (match error {
            crate::domain::archive::DecodeError::EncodedBytesOverMax { bytes_max, bytes_actual } => "encoded value is "@
                + crate::domain::text::number_chars(bytes_actual as nat) + " bytes; the bound is "@
                + crate::domain::text::number_chars(bytes_max as nat),
            crate::domain::archive::DecodeError::MalformedArchive => "archive is structurally malformed"@,
            crate::domain::archive::DecodeError::InvalidBody => "archive violates a domain invariant"@,
            crate::domain::archive::DecodeError::IdentityMismatch => "body identity differs from the durable location"@,
        }),
{
}

/// What a frame that could not be made reads as.
pub proof fn law_frame_encode_messages(error: crate::domain::envelope::EncodeError, message: String)
    requires
        call_ensures(crate::domain::envelope::EncodeError::to_string, (&error,), message),
    ensures
        message@ == (match error {
            crate::domain::envelope::EncodeError::Serialization => "domain value could not be serialized"@,
            crate::domain::envelope::EncodeError::EncodedBytesOverMax { bytes_max, bytes_actual } => "encoded value is "@
                + crate::domain::text::number_chars(bytes_actual as nat) + " bytes; the bound is "@
                + crate::domain::text::number_chars(bytes_max as nat),
        }),
{
}

/// What a frame that could not be read reads as.
pub proof fn law_frame_decode_messages(error: crate::domain::envelope::DecodeError, message: String)
    requires
        call_ensures(crate::domain::envelope::DecodeError::to_string, (&error,), message),
    ensures
        message@ == (match error {
            crate::domain::envelope::DecodeError::EncodedBytesOverMax { bytes_max, bytes_actual } => "encoded value is "@
                + crate::domain::text::number_chars(bytes_actual as nat) + " bytes; the bound is "@
                + crate::domain::text::number_chars(bytes_max as nat),
            crate::domain::envelope::DecodeError::FrameTooShort { bytes_min, bytes_actual } => "frame is "@
                + crate::domain::text::number_chars(bytes_actual as nat) + " bytes; at least "@
                + crate::domain::text::number_chars(bytes_min as nat) + " are required"@,
            crate::domain::envelope::DecodeError::MagicMismatch { observed } => "frame magic is "@ + crate::domain::envelope::octets_text(observed@)
                + "; expected STRM"@,
            crate::domain::envelope::DecodeError::ChecksumMismatch { declared, computed } => "frame checksum is 0x"@
                + crate::domain::envelope::hex_chars(declared) + "; computed 0x"@ + crate::domain::envelope::hex_chars(computed),
            crate::domain::envelope::DecodeError::ObjectKindMismatch { expected, observed } => "object kind is "@
                + crate::domain::text::number_chars(observed as nat) + "; expected "@
                + crate::domain::text::number_chars(expected as nat) + " at this location"@,
            crate::domain::envelope::DecodeError::UnsupportedVersion { observed } => "object format version "@
                + crate::domain::text::number_chars(observed as nat) + " is unsupported"@,
            crate::domain::envelope::DecodeError::MalformedBody => "postcard body is malformed"@,
            crate::domain::envelope::DecodeError::InvalidBody => "postcard body violates a domain invariant"@,
            crate::domain::envelope::DecodeError::IdentityMismatch => "body identity differs from the durable location"@,
            crate::domain::envelope::DecodeError::FormatMismatch => "body format does not match the envelope version"@,
            crate::domain::envelope::DecodeError::TrailingBytes { bytes_actual } => "postcard body has "@
                + crate::domain::text::number_chars(bytes_actual as nat) + " trailing bytes"@,
        }),
{
}

/// What parts that form no Seal read as.
pub proof fn law_seal_messages(error: SealError, message: String)
    requires
        call_ensures(SealError::to_string, (&error,), message),
    ensures
        message@ == (match error {
            SealError::GenerationExhausted => "Seal generation is exhausted"@,
            SealError::NonCanonicalGenesis =>
                "generation-one Seal is not the canonical empty genesis"@,
            SealError::ReplayOwnerNotBeforeSeal =>
                "Seal replay owner is not older than its generation"@,
            SealError::RunsOverMax => "tree has more than 16 runs"@,
            SealError::EmptyRun => "sorted run is empty"@,
            SealError::TablesOverMax => "sorted run has more than 4096 tables"@,
            SealError::ObjectBytesOverMax => "table object exceeds 134217728 bytes"@,
            SealError::StoreMismatch => "table store differs from its owning tree"@,
            SealError::FutureTable => "table birth generation is newer than its enclosing Seal"@,
            SealError::DuplicateTableObject =>
                "table object identity occurs more than once in the Seal"@,
        }),
{
}

/// What a text that is no key reads as.
pub proof fn law_spelling_messages(error: KeySpellingError, message: String)
    requires
        call_ensures(KeySpellingError::to_string, (&error,), message),
    ensures
        message@ == (match error {
            KeySpellingError::Shape => "durable key has the wrong segment shape"@,
            KeySpellingError::UnsupportedNamespace =>
                "durable key namespace version is unsupported"@,
            KeySpellingError::Partition(PartitionIdError::Malformed) =>
                "durable key partition is invalid: partition id is not a lowercase hyphenated UUID"@,
            KeySpellingError::Partition(PartitionIdError::Nil) =>
                "durable key partition is invalid: partition id is nil"@,
            KeySpellingError::ReverseOrdinal =>
                "durable key reverse ordinal is not a fixed-width 20-digit u64"@,
            KeySpellingError::ZeroCoordinate => "durable key spells reserved coordinate zero"@,
            KeySpellingError::TableStore => "table key store spelling is not canonical"@,
            KeySpellingError::TableCoordinate =>
                "table key coordinate does not have its canonical fixed-width decimal spelling"@,
            KeySpellingError::InvalidTableIdentity =>
                "table key fresh identity violates its generation ordering"@,
        }),
{
}

/// What rows that form no table read as.
pub proof fn law_table_encode_messages(error: SstEncodeError, message: String)
    requires
        call_ensures(SstEncodeError::to_string, (&error,), message),
    ensures
        message@ == (match error {
            SstEncodeError::StoreMismatch => "table key names the wrong store for this SST root"@,
            SstEncodeError::EmptyTable => "SST must contain at least one row"@,
            SstEncodeError::RowsNotStrictlyOrdered => "SST rows are not strictly ordered"@,
            SstEncodeError::Serialization => "SST could not be archived"@,
            SstEncodeError::EncodedBytesOverMax => "SST exceeds the 134217728-byte bound"@,
        }),
{
}

/// What a table that could not be read reads as.
pub proof fn law_table_decode_messages(error: SstDecodeError, message: String)
    requires
        call_ensures(SstDecodeError::to_string, (&error,), message),
    ensures
        message@ == (match error {
            SstDecodeError::EncodedBytesOverMax { bytes_actual } => "SST is "@
                + crate::domain::text::number_chars(bytes_actual as nat)
                + " bytes; the bound is 134217728"@,
            SstDecodeError::MalformedArchive => "SST archive is structurally malformed"@,
            SstDecodeError::InvalidBody => "SST body violates a domain invariant"@,
            SstDecodeError::IdentityMismatch =>
                "SST body identity differs from the durable table key"@,
            SstDecodeError::StoreMismatch => "table key names the wrong store for this SST root"@,
            SstDecodeError::ResourceBound => "SST exceeds a decoded resource bound"@,
        }),
{
}

/// What facts that form no RUN read as.
pub proof fn law_run_messages(error: BoundedNonEmptyVecError, message: String)
    requires
        call_ensures(BoundedNonEmptyVecError::to_string, (&error,), message),
    ensures
        message@ == (match error {
            BoundedNonEmptyVecError::Empty => "WAL run has no operation facts"@,
            BoundedNonEmptyVecError::OverMax { facts_actual } => "WAL run has "@
                + crate::domain::text::number_chars(facts_actual as nat)
                + " facts; the bound is 4096"@,
        }),
{
}

/// What a Seal that is no candidate reads as.
pub proof fn law_candidate_messages(error: SealCandidateError, message: String)
    requires
        call_ensures(SealCandidateError::to_string, (&error,), message),
    ensures
        message@ == (match error {
            SealCandidateError::NotGenesis =>
                "a genesis candidate must name the genesis generation"@,
            SealCandidateError::NotAuthority =>
                "an authority candidate must advance beyond the genesis generation"@,
            SealCandidateError::Encode(error) => error.spec_message(),
        }),
{
}

/// What the failures without parts read as.
pub proof fn law_plain_messages(
    exhausted: CoordinateExhausted,
    zero: ZeroCoordinate,
    identity: TableIdentityError,
    partition: PartitionIdError,
    key: DirectoryKeyError,
    messages: (String, String, String, String, String),
)
    requires
        call_ensures(CoordinateExhausted::to_string, (&exhausted,), messages.0),
        call_ensures(ZeroCoordinate::to_string, (&zero,), messages.1),
        call_ensures(TableIdentityError::to_string, (&identity,), messages.2),
        call_ensures(PartitionIdError::to_string, (&partition,), messages.3),
        call_ensures(DirectoryKeyError::to_string, (&key,), messages.4),
    ensures
        messages.0@ == "storage coordinate is exhausted"@,
        messages.1@ == "storage coordinate is zero"@,
        messages.2@ == "table owner claim does not predate its birth generation"@,
        messages.3@ == (match partition {
            PartitionIdError::Malformed => "partition id is not a lowercase hyphenated UUID"@,
            PartitionIdError::Nil => "partition id is nil"@,
        }),
        messages.4@ == (match key {
            DirectoryKeyError::InvalidUtf8 => "Directory key is not UTF-8"@,
            DirectoryKeyError::StreamPath => "Directory key is not a canonical stream id"@,
        }),
{
}

} // verus!
