//! Canonical durable key spellings.
//!
//! Every key is ASCII segments between slashes. Seal and WAL keys end in the
//! complement of their coordinate, twenty digits wide, so that an ascending
//! listing surfaces the newest coordinate first.

use vstd::prelude::*;
use vstd::string::*;

use crate::domain::coordinate::{BatchId, SealGeneration};
use crate::domain::partition::{PartitionId, PartitionIdError};
use crate::domain::seal::SealIdentity;
use crate::domain::table::{AttemptId, FreshIdentity, StoreKind, TableObjectId};
use crate::domain::text::{
    is_bytes_equal, parse_digits, push_bytes, push_fixed_decimal, split_segments, text_of_ascii,
};
use crate::domain::wal::WalIdentity;

verus! {

/// The bytes of a segment's text.
pub open spec fn segment_bytes(text: Seq<char>) -> Seq<u8> {
    vstd::utf8::encode_utf8(text)
}

/// The separator between segments.
pub open spec fn slash() -> u8 {
    47
}

/// The separator between an owner claim and its counter.
pub open spec fn hyphen() -> u8 {
    45
}

/// The segment that every key starts with.
pub open spec fn partition_segment() -> Seq<u8> {
    segment_bytes("partition"@)
}

pub open spec fn seal_segment() -> Seq<u8> {
    segment_bytes("seal"@)
}

pub open spec fn wal_segment() -> Seq<u8> {
    segment_bytes("wal"@)
}

pub open spec fn table_segment() -> Seq<u8> {
    segment_bytes("table"@)
}

/// The namespace version that every key names.
pub open spec fn version_segment() -> Seq<u8> {
    segment_bytes("v1"@)
}

/// The spelling of a store.
pub open spec fn store_segment(store: StoreKind) -> Seq<u8> {
    match store {
        StoreKind::Directory => segment_bytes("directory"@),
        StoreKind::Ledger => segment_bytes("ledger"@),
        StoreKind::Tally => segment_bytes("tally"@),
        StoreKind::Annals => segment_bytes("annals"@),
    }
}

/// ASCII without a separator.
pub open spec fn is_plain_segment(segment: Seq<u8>) -> bool {
    &&& crate::domain::text::all_ascii(segment)
    &&& forall|i: int| 0 <= i < segment.len() ==> segment[i] != slash()
}

proof fn lemma_fixed_segments()
    ensures
        is_plain_segment(partition_segment()),
        is_plain_segment(seal_segment()),
        is_plain_segment(wal_segment()),
        is_plain_segment(table_segment()),
        is_plain_segment(version_segment()),
        forall|store: StoreKind| is_plain_segment(#[trigger] store_segment(store)),
        seal_segment() != wal_segment(),
        forall|left: StoreKind, right: StoreKind|
            #[trigger] store_segment(left) == #[trigger] store_segment(right) ==> left == right,
{
    reveal_strlit("partition");
    reveal_strlit("seal");
    reveal_strlit("wal");
    reveal_strlit("table");
    reveal_strlit("v1");
    reveal_strlit("directory");
    reveal_strlit("ledger");
    reveal_strlit("tally");
    reveal_strlit("annals");
    crate::domain::text::lemma_ascii_literal("partition");
    crate::domain::text::lemma_ascii_literal("seal");
    crate::domain::text::lemma_ascii_literal("wal");
    crate::domain::text::lemma_ascii_literal("table");
    crate::domain::text::lemma_ascii_literal("v1");
    crate::domain::text::lemma_ascii_literal("directory");
    crate::domain::text::lemma_ascii_literal("ledger");
    crate::domain::text::lemma_ascii_literal("tally");
    crate::domain::text::lemma_ascii_literal("annals");
    assert(store_segment(StoreKind::Tally)[0] == 116);
    assert(store_segment(StoreKind::Annals)[0] == 97);
    assert(store_segment(StoreKind::Ledger)[0] == 108);
}

proof fn lemma_number_segment(value: nat, width: nat)
    ensures
        is_plain_segment(crate::domain::text::fixed_decimal(value, width)),
{
    crate::domain::text::lemma_fixed_decimal_shape(value, width);
    let text = crate::domain::text::fixed_decimal(value, width);
    assert forall|i: int| 0 <= i < text.len() implies #[trigger] text[i] < 128 && text[i] != slash() by {
        assert(crate::domain::text::is_digit(text[i]));
    }
}

/// Why a text is no durable key.
#[derive(Debug, Clone, Copy, PartialEq, Eq, Structural)]
pub enum KeySpellingError {
    Shape,
    UnsupportedNamespace,
    Partition(PartitionIdError),
    ReverseOrdinal,
    ZeroCoordinate,
    TableStore,
    TableCoordinate,
    InvalidTableIdentity,
}

impl KeySpellingError {
    pub open spec fn spec_message(self) -> Seq<char> {
        match self {
            KeySpellingError::Shape => "durable key has the wrong segment shape"@,
            KeySpellingError::UnsupportedNamespace =>
                "durable key namespace version is unsupported"@,
            KeySpellingError::Partition(PartitionIdError::Malformed) =>
                "durable key partition is invalid: partition id is not a lowercase hyphenated UUID"@,
            KeySpellingError::Partition(PartitionIdError::Nil) =>
                "durable key partition is invalid: partition id is nil"@,
            KeySpellingError::ReverseOrdinal =>
                "durable key reverse ordinal is not a fixed-width 20-digit u64"@,
            KeySpellingError::ZeroCoordinate => "durable key spells reserved coordinate zero"@,
            KeySpellingError::TableStore => "table key store spelling is not canonical"@,
            KeySpellingError::TableCoordinate =>
                "table key coordinate does not have its canonical fixed-width decimal spelling"@,
            KeySpellingError::InvalidTableIdentity =>
                "table key fresh identity violates its generation ordering"@,
        }
    }

    /// The message shown for this failure.
    pub fn to_string(&self) -> (message: String)
        ensures
            message@ == self.spec_message(),
    {
        let text = match *self {
            KeySpellingError::Shape => "durable key has the wrong segment shape",
            KeySpellingError::UnsupportedNamespace =>
                "durable key namespace version is unsupported",
            KeySpellingError::Partition(PartitionIdError::Malformed) =>
                "durable key partition is invalid: partition id is not a lowercase hyphenated UUID",
            KeySpellingError::Partition(PartitionIdError::Nil) =>
                "durable key partition is invalid: partition id is nil",
            KeySpellingError::ReverseOrdinal =>
                "durable key reverse ordinal is not a fixed-width 20-digit u64",
            KeySpellingError::ZeroCoordinate => "durable key spells reserved coordinate zero",
            KeySpellingError::TableStore => "table key store spelling is not canonical",
            KeySpellingError::TableCoordinate =>
                "table key coordinate does not have its canonical fixed-width decimal spelling",
            KeySpellingError::InvalidTableIdentity =>
                "table key fresh identity violates its generation ordering",
        };
        String::from_str(text)
    }
}

// Namespaces

/// `partition/<uuid>/<kind>/v1`.
pub open spec fn namespace_text(partition: PartitionId, kind: Seq<u8>) -> Seq<u8> {
    crate::domain::text::joined(
        seq![
            partition_segment(),
            crate::domain::partition::uuid_text(partition.octets@),
            kind,
            version_segment(),
        ],
        slash(),
    )
}

/// The partition that a namespace text names.
pub open spec fn spec_parse_namespace(text: Seq<u8>, kind: Seq<u8>) -> Result<
    PartitionId,
    KeySpellingError,
> {
    let parts = crate::domain::text::segments(text, slash());
    if parts[0] != partition_segment() || parts.len() < 3 || parts[2] != kind {
        Err(KeySpellingError::Shape)
    } else if parts.len() < 4 || parts[3] != version_segment() {
        Err(KeySpellingError::UnsupportedNamespace)
    } else if parts.len() > 4 {
        Err(KeySpellingError::Shape)
    } else {
        match PartitionId::spec_parse(parts[1]) {
            Ok(partition) => Ok(partition),
            Err(error) => Err(KeySpellingError::Partition(error)),
        }
    }
}

fn parse_namespace(input: &[u8], expected_kind: &[u8]) -> (partition: Result<
    PartitionId,
    KeySpellingError,
>)
    ensures
        partition == spec_parse_namespace(input@, expected_kind@),
        partition matches Ok(partition) ==> partition.wf(),
{
    proof {
        crate::domain::text::lemma_joined_segments(input@, slash());
    }
    let parts = split_segments(input, 47);
    if !is_bytes_equal(parts[0], "partition".as_bytes()) {
        return Err(KeySpellingError::Shape);
    }
    if parts.len() < 3 || !is_bytes_equal(parts[2], expected_kind) {
        return Err(KeySpellingError::Shape);
    }
    if parts.len() < 4 || !is_bytes_equal(parts[3], "v1".as_bytes()) {
        return Err(KeySpellingError::UnsupportedNamespace);
    }
    if parts.len() > 4 {
        return Err(KeySpellingError::Shape);
    }
    match PartitionId::parse_bytes(parts[1]) {
        Ok(partition) => Ok(partition),
        Err(error) => Err(KeySpellingError::Partition(error)),
    }
}

fn push_namespace(out: &mut Vec<u8>, partition: PartitionId, kind: &[u8])
    ensures
        final(out)@ == old(out)@ + namespace_text(partition, kind@),
{
    push_bytes(out, "partition".as_bytes());
    out.push(47);
    partition.push_spelling(out);
    out.push(47);
    push_bytes(out, kind);
    out.push(47);
    push_bytes(out, "v1".as_bytes());
    proof {
        lemma_joined_4(
            partition_segment(),
            crate::domain::partition::uuid_text(partition.octets@),
            kind@,
            version_segment(),
        );
        assert(out@ =~= old(out)@ + namespace_text(partition, kind@));
    }
}

proof fn lemma_joined_4(a: Seq<u8>, b: Seq<u8>, c: Seq<u8>, d: Seq<u8>)
    ensures
        crate::domain::text::joined(seq![a, b, c, d], slash()) == a + seq![slash()] + b
            + seq![slash()] + c + seq![slash()] + d,
{
    reveal_with_fuel(crate::domain::text::joined, 5);
    let parts = seq![a, b, c, d];
    assert(parts.skip(1) =~= seq![b, c, d]);
    assert(parts.skip(1).skip(1) =~= seq![c, d]);
    assert(parts.skip(1).skip(1).skip(1) =~= seq![d]);
    assert(crate::domain::text::joined(parts, slash()) =~= a + seq![slash()] + b + seq![slash()] + c
        + seq![slash()] + d);
}

/// Splitting joined plain segments gives the segments back.
proof fn lemma_segments_joined(parts: Seq<Seq<u8>>)
    requires
        parts.len() >= 1,
        forall|i: int| 0 <= i < parts.len() ==> is_plain_segment(#[trigger] parts[i]),
    ensures
        crate::domain::text::segments(crate::domain::text::joined(parts, slash()), slash()) == parts,
        crate::domain::text::all_ascii(crate::domain::text::joined(parts, slash())),
    decreases parts.len(),
{
    assert(is_plain_segment(parts[0]));
    if parts.len() == 1 {
        crate::domain::text::lemma_segments_last(parts[0], slash());
        assert(parts =~= seq![parts[0]]);
    } else {
        let rest = parts.skip(1);
        assert forall|i: int| 0 <= i < rest.len() implies is_plain_segment(#[trigger] rest[i]) by {
            assert(rest[i] == parts[i + 1]);
        }
        lemma_segments_joined(rest);
        let rest_text = crate::domain::text::joined(rest, slash());
        crate::domain::text::lemma_segments_first(parts[0], slash(), rest_text);
        assert(seq![parts[0]] + rest =~= parts);
        let whole = crate::domain::text::joined(parts, slash());
        assert forall|i: int| 0 <= i < whole.len() implies #[trigger] whole[i] < 128 by {
            if i < parts[0].len() {
                assert(parts[0][i] < 128);
            } else if i > parts[0].len() {
                assert(rest_text[i - parts[0].len() - 1] < 128);
            }
        }
    }
}

proof fn lemma_namespace_round_trip(partition: PartitionId, kind: Seq<u8>)
    requires
        is_plain_segment(kind),
    ensures
        spec_parse_namespace(namespace_text(partition, kind), kind) == (if partition.wf() {
            Ok::<PartitionId, KeySpellingError>(partition)
        } else {
            Err(KeySpellingError::Partition(PartitionIdError::Nil))
        }),
        crate::domain::text::all_ascii(namespace_text(partition, kind)),
{
    lemma_fixed_segments();
    crate::domain::partition::lemma_uuid_text_bytes(partition.octets@);
    let parts = seq![
        partition_segment(),
        crate::domain::partition::uuid_text(partition.octets@),
        kind,
        version_segment(),
    ];
    assert forall|i: int| 0 <= i < parts.len() implies is_plain_segment(#[trigger] parts[i]) by {}
    lemma_segments_joined(parts);
    partition.law_spelling_round_trips();
}

/// The only text that names a namespace is its canonical spelling.
proof fn lemma_namespace_canonical(text: Seq<u8>, kind: Seq<u8>)
    ensures
        spec_parse_namespace(text, kind) matches Ok(partition) ==> text == namespace_text(
            partition,
            kind,
        ) && partition.wf(),
{
    crate::domain::text::lemma_joined_segments(text, slash());
    if spec_parse_namespace(text, kind) matches Ok(partition) {
        let parts = crate::domain::text::segments(text, slash());
        assert(parts =~= seq![parts[0], parts[1], parts[2], parts[3]]);
    }
}

/// Ascending LIST prefix for one partition's Seal namespace.
///
/// Keys embed reverse ordinals, so the first key under this prefix is the newest
/// generation.
#[derive(Debug, Clone, Copy, PartialEq, Eq, PartialOrd, Ord, Hash)]
pub struct SealNamespace {
    pub partition: PartitionId,
}

impl SealNamespace {
    pub open spec fn spelling(self) -> Seq<u8> {
        namespace_text(self.partition, seal_segment())
    }

    pub open spec fn spec_parse(text: Seq<u8>) -> Result<Self, KeySpellingError> {
        match spec_parse_namespace(text, seal_segment()) {
            Ok(partition) => Ok(SealNamespace { partition }),
            Err(error) => Err(error),
        }
    }

    pub fn new(partition: PartitionId) -> (namespace: Self)
        ensures
            namespace == (SealNamespace { partition }),
    {
        SealNamespace { partition }
    }

    pub fn partition(self) -> (partition: PartitionId)
        ensures
            partition == self.partition,
    {
        self.partition
    }

    /// Reads a canonical spelling.
    pub fn parse_text(input: &str) -> (namespace: Result<Self, KeySpellingError>)
        ensures
            namespace == Self::spec_parse(input.spec_bytes()),
            namespace matches Ok(namespace) ==> namespace.partition.wf(),
    {
        match parse_namespace(input.as_bytes(), "seal".as_bytes()) {
            Ok(partition) => Ok(SealNamespace { partition }),
            Err(error) => Err(error),
        }
    }

    /// The canonical spelling.
    pub fn to_string(&self) -> (text: String)
        ensures
            text@ == crate::domain::text::ascii_chars(self.spelling()),
    {
        let mut out: Vec<u8> = Vec::new();
        push_namespace(&mut out, self.partition, "seal".as_bytes());
        proof {
            lemma_fixed_segments();
            lemma_namespace_round_trip(self.partition, seal_segment());
            assert(out@ =~= self.spelling());
        }
        text_of_ascii(out.as_slice())
    }

    /// A valid namespace is what its own spelling parses to, and no other text
    /// parses to it.
    pub proof fn law_spelling_is_canonical(self, text: Seq<u8>)
        requires
            self.partition.wf(),
        ensures
            Self::spec_parse(text) == Ok::<Self, KeySpellingError>(self) <==> text
                == self.spelling(),
    {
        lemma_fixed_segments();
        lemma_namespace_round_trip(self.partition, seal_segment());
        lemma_namespace_canonical(text, seal_segment());
    }
}

impl std::str::FromStr for SealNamespace {
    type Err = KeySpellingError;

    fn from_str(input: &str) -> (parsed: Result<Self, KeySpellingError>)
        ensures
            parsed == SealNamespace::spec_parse(input.spec_bytes()),
    {
        SealNamespace::parse_text(input)
    }
}

impl From<PartitionId> for SealNamespace {
    fn from(partition: PartitionId) -> (namespace: Self) {
        SealNamespace { partition }
    }
}

impl vstd::std_specs::convert::FromSpecImpl<PartitionId> for SealNamespace {
    open spec fn obeys_from_spec() -> bool {
        true
    }

    open spec fn from_spec(partition: PartitionId) -> Self {
        SealNamespace { partition }
    }
}

/// Ascending LIST prefix for one partition's WAL namespace.
///
/// Keys embed reverse ordinals, so the first key under this prefix is the newest
/// surviving batch coordinate.
#[derive(Debug, Clone, Copy, PartialEq, Eq, PartialOrd, Ord, Hash)]
pub struct WalNamespace {
    pub partition: PartitionId,
}

impl WalNamespace {
    pub open spec fn spelling(self) -> Seq<u8> {
        namespace_text(self.partition, wal_segment())
    }

    pub open spec fn spec_parse(text: Seq<u8>) -> Result<Self, KeySpellingError> {
        match spec_parse_namespace(text, wal_segment()) {
            Ok(partition) => Ok(WalNamespace { partition }),
            Err(error) => Err(error),
        }
    }

    pub fn new(partition: PartitionId) -> (namespace: Self)
        ensures
            namespace == (WalNamespace { partition }),
    {
        WalNamespace { partition }
    }

    pub fn partition(self) -> (partition: PartitionId)
        ensures
            partition == self.partition,
    {
        self.partition
    }

    /// Reads a canonical spelling.
    pub fn parse_text(input: &str) -> (namespace: Result<Self, KeySpellingError>)
        ensures
            namespace == Self::spec_parse(input.spec_bytes()),
            namespace matches Ok(namespace) ==> namespace.partition.wf(),
    {
        match parse_namespace(input.as_bytes(), "wal".as_bytes()) {
            Ok(partition) => Ok(WalNamespace { partition }),
            Err(error) => Err(error),
        }
    }

    /// The canonical spelling.
    pub fn to_string(&self) -> (text: String)
        ensures
            text@ == crate::domain::text::ascii_chars(self.spelling()),
    {
        let mut out: Vec<u8> = Vec::new();
        push_namespace(&mut out, self.partition, "wal".as_bytes());
        proof {
            lemma_fixed_segments();
            lemma_namespace_round_trip(self.partition, wal_segment());
            assert(out@ =~= self.spelling());
        }
        text_of_ascii(out.as_slice())
    }

    /// A valid namespace is what its own spelling parses to, and no other text
    /// parses to it.
    pub proof fn law_spelling_is_canonical(self, text: Seq<u8>)
        requires
            self.partition.wf(),
        ensures
            Self::spec_parse(text) == Ok::<Self, KeySpellingError>(self) <==> text
                == self.spelling(),
    {
        lemma_fixed_segments();
        lemma_namespace_round_trip(self.partition, wal_segment());
        lemma_namespace_canonical(text, wal_segment());
    }
}

impl std::str::FromStr for WalNamespace {
    type Err = KeySpellingError;

    fn from_str(input: &str) -> (parsed: Result<Self, KeySpellingError>)
        ensures
            parsed == WalNamespace::spec_parse(input.spec_bytes()),
    {
        WalNamespace::parse_text(input)
    }
}

impl From<PartitionId> for WalNamespace {
    fn from(partition: PartitionId) -> (namespace: Self) {
        WalNamespace { partition }
    }
}

impl vstd::std_specs::convert::FromSpecImpl<PartitionId> for WalNamespace {
    open spec fn obeys_from_spec() -> bool {
        true
    }

    open spec fn from_spec(partition: PartitionId) -> Self {
        WalNamespace { partition }
    }
}

// Coordinate keys

/// The complement that makes greater coordinates sort first.
pub open spec fn reverse_ordinal(ordinal: u64) -> Seq<u8> {
    crate::domain::text::fixed_decimal((u64::MAX - ordinal) as nat, 20)
}

/// `partition/<uuid>/<kind>/v1/<reverse ordinal>`.
pub open spec fn key_text(partition: PartitionId, kind: Seq<u8>, ordinal: u64) -> Seq<u8> {
    crate::domain::text::joined(
        seq![
            partition_segment(),
            crate::domain::partition::uuid_text(partition.octets@),
            kind,
            version_segment(),
            reverse_ordinal(ordinal),
        ],
        slash(),
    )
}

/// The partition and the ordinal that a key text names.
pub open spec fn spec_parse_key(text: Seq<u8>, kind: Seq<u8>) -> Result<
    (PartitionId, u64),
    KeySpellingError,
> {
    let parts = crate::domain::text::segments(text, slash());
    if parts[0] != partition_segment() || parts.len() < 3 || parts[2] != kind {
        Err(KeySpellingError::Shape)
    } else if parts.len() < 4 || parts[3] != version_segment() {
        Err(KeySpellingError::UnsupportedNamespace)
    } else if parts.len() != 5 {
        Err(KeySpellingError::Shape)
    } else {
        match PartitionId::spec_parse(parts[1]) {
            Err(error) => Err(KeySpellingError::Partition(error)),
            Ok(partition) => match crate::domain::text::spec_parse_digits(parts[4], 20) {
                Some(reversed) => Ok((partition, (u64::MAX - reversed) as u64)),
                None => Err(KeySpellingError::ReverseOrdinal),
            },
        }
    }
}

fn parse_key(input: &[u8], expected_kind: &[u8]) -> (key: Result<
    (PartitionId, u64),
    KeySpellingError,
>)
    ensures
        key == spec_parse_key(input@, expected_kind@),
        key matches Ok(key) ==> key.0.wf(),
{
    proof {
        crate::domain::text::lemma_joined_segments(input@, slash());
    }
    let parts = split_segments(input, 47);
    if !is_bytes_equal(parts[0], "partition".as_bytes()) {
        return Err(KeySpellingError::Shape);
    }
    if parts.len() < 3 || !is_bytes_equal(parts[2], expected_kind) {
        return Err(KeySpellingError::Shape);
    }
    if parts.len() < 4 || !is_bytes_equal(parts[3], "v1".as_bytes()) {
        return Err(KeySpellingError::UnsupportedNamespace);
    }
    if parts.len() != 5 {
        return Err(KeySpellingError::Shape);
    }
    match PartitionId::parse_bytes(parts[1]) {
        Err(error) => Err(KeySpellingError::Partition(error)),
        Ok(partition) => match parse_digits(parts[4], 20) {
            Some(reversed) => Ok((partition, u64::MAX - reversed)),
            None => Err(KeySpellingError::ReverseOrdinal),
        },
    }
}

fn push_key(out: &mut Vec<u8>, partition: PartitionId, kind: &[u8], ordinal: u64)
    ensures
        final(out)@ == old(out)@ + key_text(partition, kind@, ordinal),
{
    push_namespace(out, partition, kind);
    out.push(47);
    push_fixed_decimal(out, u64::MAX - ordinal, 20);
    proof {
        lemma_key_text(partition, kind@, ordinal);
        assert(out@ =~= old(out)@ + key_text(partition, kind@, ordinal));
    }
}

/// A key is its namespace, a slash and its reverse ordinal.
proof fn lemma_key_text(partition: PartitionId, kind: Seq<u8>, ordinal: u64)
    ensures
        key_text(partition, kind, ordinal) == namespace_text(partition, kind) + seq![slash()]
            + reverse_ordinal(ordinal),
{
    let a = partition_segment();
    let b = crate::domain::partition::uuid_text(partition.octets@);
    let d = version_segment();
    let e = reverse_ordinal(ordinal);
    lemma_joined_4(a, b, kind, d);
    reveal_with_fuel(crate::domain::text::joined, 6);
    let parts = seq![a, b, kind, d, e];
    assert(parts.skip(1) =~= seq![b, kind, d, e]);
    assert(parts.skip(1).skip(1) =~= seq![kind, d, e]);
    assert(parts.skip(1).skip(1).skip(1) =~= seq![d, e]);
    assert(parts.skip(1).skip(1).skip(1).skip(1) =~= seq![e]);
    assert(key_text(partition, kind, ordinal) =~= namespace_text(partition, kind) + seq![slash()]
        + reverse_ordinal(ordinal));
}

proof fn lemma_key_round_trip(partition: PartitionId, kind: Seq<u8>, ordinal: u64)
    requires
        is_plain_segment(kind),
        partition.wf(),
    ensures
        spec_parse_key(key_text(partition, kind, ordinal), kind) == Ok::<_, KeySpellingError>(
            (partition, ordinal),
        ),
{
    lemma_key_ascii(partition, kind, ordinal);
    crate::domain::text::lemma_machine_numbers_fit();
    crate::domain::text::lemma_fixed_decimal_value((u64::MAX - ordinal) as nat, 20);
    crate::domain::text::lemma_fixed_decimal_shape((u64::MAX - ordinal) as nat, 20);
    partition.law_spelling_round_trips();
}

proof fn lemma_key_ascii(partition: PartitionId, kind: Seq<u8>, ordinal: u64)
    requires
        is_plain_segment(kind),
    ensures
        crate::domain::text::all_ascii(key_text(partition, kind, ordinal)),
        crate::domain::text::segments(key_text(partition, kind, ordinal), slash()) == seq![
            partition_segment(),
            crate::domain::partition::uuid_text(partition.octets@),
            kind,
            version_segment(),
            reverse_ordinal(ordinal),
        ],
{
    lemma_fixed_segments();
    crate::domain::partition::lemma_uuid_text_bytes(partition.octets@);
    lemma_number_segment((u64::MAX - ordinal) as nat, 20);
    let parts = seq![
        partition_segment(),
        crate::domain::partition::uuid_text(partition.octets@),
        kind,
        version_segment(),
        reverse_ordinal(ordinal),
    ];
    assert forall|i: int| 0 <= i < parts.len() implies is_plain_segment(#[trigger] parts[i]) by {}
    lemma_segments_joined(parts);
}

proof fn lemma_key_canonical(text: Seq<u8>, kind: Seq<u8>)
    ensures
        spec_parse_key(text, kind) matches Ok(key) ==> text == key_text(key.0, kind, key.1)
            && key.0.wf(),
{
    crate::domain::text::lemma_joined_segments(text, slash());
    if spec_parse_key(text, kind) matches Ok(key) {
        let parts = crate::domain::text::segments(text, slash());
        assert(parts =~= seq![parts[0], parts[1], parts[2], parts[3], parts[4]]);
        crate::domain::text::lemma_digits_are_fixed_decimal(parts[4]);
    }
}

/// Of two keys of one namespace the one with the greater ordinal sorts first.
proof fn lemma_key_order(partition: PartitionId, kind: Seq<u8>, older: u64, newer: u64)
    requires
        older < newer,
    ensures
        crate::domain::text::bytes_less(
            key_text(partition, kind, newer),
            key_text(partition, kind, older),
        ),
{
    crate::domain::text::lemma_machine_numbers_fit();
    crate::domain::text::lemma_fixed_decimal_order(
        (u64::MAX - newer) as nat,
        (u64::MAX - older) as nat,
        20,
    );
    lemma_key_text(partition, kind, older);
    lemma_key_text(partition, kind, newer);
    crate::domain::text::lemma_bytes_less_prefix(
        namespace_text(partition, kind) + seq![slash()],
        reverse_ordinal(newer),
        reverse_ordinal(older),
    );
}

/// The durable key of one Seal.
#[derive(Debug, Clone, Copy, PartialEq, Eq, PartialOrd, Ord, Hash)]
pub struct SealKey {
    pub identity: SealIdentity,
}

impl SealKey {
    pub open spec fn spelling(self) -> Seq<u8> {
        key_text(self.identity.partition, seal_segment(), self.identity.generation.value)
    }

    pub open spec fn spec_parse(text: Seq<u8>) -> Result<Self, KeySpellingError> {
        match spec_parse_key(text, seal_segment()) {
            Ok((partition, ordinal)) => if ordinal == 0 {
                Err(KeySpellingError::ZeroCoordinate)
            } else {
                let generation = SealGeneration { value: ordinal };
                Ok(SealKey { identity: SealIdentity { partition, generation } })
            },
            Err(error) => Err(error),
        }
    }

    pub fn identity(self) -> (identity: SealIdentity)
        ensures
            identity == self.identity,
    {
        self.identity
    }

    /// Reads a canonical spelling.
    pub fn parse_text(input: &str) -> (key: Result<Self, KeySpellingError>)
        ensures
            key == Self::spec_parse(input.spec_bytes()),
            key matches Ok(key) ==> key.identity.wf(),
    {
        match parse_key(input.as_bytes(), "seal".as_bytes()) {
            Ok((partition, ordinal)) => match SealGeneration::try_from(ordinal) {
                Ok(generation) => Ok(SealKey { identity: SealIdentity { partition, generation } }),
                Err(_zero) => Err(KeySpellingError::ZeroCoordinate),
            },
            Err(error) => Err(error),
        }
    }

    /// The canonical spelling.
    pub fn to_string(&self) -> (text: String)
        ensures
            text@ == crate::domain::text::ascii_chars(self.spelling()),
    {
        let mut out: Vec<u8> = Vec::new();
        push_key(
            &mut out,
            self.identity.partition,
            "seal".as_bytes(),
            self.identity.generation.value,
        );
        proof {
            lemma_fixed_segments();
            lemma_key_ascii(
                self.identity.partition,
                seal_segment(),
                self.identity.generation.value,
            );
            assert(out@ =~= self.spelling());
        }
        text_of_ascii(out.as_slice())
    }

    /// A valid key is what its own spelling parses to, and no other text parses
    /// to it.
    pub proof fn law_spelling_is_canonical(self, text: Seq<u8>)
        requires
            self.identity.wf(),
        ensures
            Self::spec_parse(text) == Ok::<Self, KeySpellingError>(self) <==> text
                == self.spelling(),
    {
        lemma_fixed_segments();
        lemma_key_round_trip(
            self.identity.partition,
            seal_segment(),
            self.identity.generation.value,
        );
        lemma_key_canonical(text, seal_segment());
    }

    /// Reverse spelling inverts every pair of generations: of two Seal keys of one
    /// partition the newer one sorts first.
    pub proof fn law_newest_sorts_first(older: Self, newer: Self)
        requires
            older.identity.partition == newer.identity.partition,
            older.identity.generation.value < newer.identity.generation.value,
        ensures
            crate::domain::text::bytes_less(newer.spelling(), older.spelling()),
    {
        lemma_key_order(
            older.identity.partition,
            seal_segment(),
            older.identity.generation.value,
            newer.identity.generation.value,
        );
    }
}

impl std::str::FromStr for SealKey {
    type Err = KeySpellingError;

    fn from_str(input: &str) -> (parsed: Result<Self, KeySpellingError>)
        ensures
            parsed == SealKey::spec_parse(input.spec_bytes()),
    {
        SealKey::parse_text(input)
    }
}

impl From<SealIdentity> for SealKey {
    fn from(identity: SealIdentity) -> (key: Self) {
        SealKey { identity }
    }
}

impl vstd::std_specs::convert::FromSpecImpl<SealIdentity> for SealKey {
    open spec fn obeys_from_spec() -> bool {
        true
    }

    open spec fn from_spec(identity: SealIdentity) -> Self {
        SealKey { identity }
    }
}

/// The durable key of one log object.
#[derive(Debug, Clone, Copy, PartialEq, Eq, PartialOrd, Ord, Hash)]
pub struct WalKey {
    pub identity: WalIdentity,
}

impl WalKey {
    pub open spec fn spelling(self) -> Seq<u8> {
        key_text(self.identity.partition, wal_segment(), self.identity.batch.value)
    }

    pub open spec fn spec_parse(text: Seq<u8>) -> Result<Self, KeySpellingError> {
        match spec_parse_key(text, wal_segment()) {
            Ok((partition, ordinal)) => if ordinal == 0 {
                Err(KeySpellingError::ZeroCoordinate)
            } else {
                let batch = BatchId { value: ordinal };
                Ok(WalKey { identity: WalIdentity { partition, batch } })
            },
            Err(error) => Err(error),
        }
    }

    pub fn identity(self) -> (identity: WalIdentity)
        ensures
            identity == self.identity,
    {
        self.identity
    }

    /// Reads a canonical spelling.
    pub fn parse_text(input: &str) -> (key: Result<Self, KeySpellingError>)
        ensures
            key == Self::spec_parse(input.spec_bytes()),
            key matches Ok(key) ==> key.identity.wf(),
    {
        match parse_key(input.as_bytes(), "wal".as_bytes()) {
            Ok((partition, ordinal)) => match BatchId::try_from(ordinal) {
                Ok(batch) => Ok(WalKey { identity: WalIdentity { partition, batch } }),
                Err(_zero) => Err(KeySpellingError::ZeroCoordinate),
            },
            Err(error) => Err(error),
        }
    }

    /// The canonical spelling.
    pub fn to_string(&self) -> (text: String)
        ensures
            text@ == crate::domain::text::ascii_chars(self.spelling()),
    {
        let mut out: Vec<u8> = Vec::new();
        push_key(&mut out, self.identity.partition, "wal".as_bytes(), self.identity.batch.value);
        proof {
            lemma_fixed_segments();
            lemma_key_ascii(self.identity.partition, wal_segment(), self.identity.batch.value);
            assert(out@ =~= self.spelling());
        }
        text_of_ascii(out.as_slice())
    }

    /// A valid key is what its own spelling parses to, and no other text parses
    /// to it.
    pub proof fn law_spelling_is_canonical(self, text: Seq<u8>)
        requires
            self.identity.wf(),
        ensures
            Self::spec_parse(text) == Ok::<Self, KeySpellingError>(self) <==> text
                == self.spelling(),
    {
        lemma_fixed_segments();
        lemma_key_round_trip(self.identity.partition, wal_segment(), self.identity.batch.value);
        lemma_key_canonical(text, wal_segment());
    }

    /// Of two log keys of one partition the newer one sorts first.
    pub proof fn law_newest_sorts_first(older: Self, newer: Self)
        requires
            older.identity.partition == newer.identity.partition,
            older.identity.batch.value < newer.identity.batch.value,
        ensures
            crate::domain::text::bytes_less(newer.spelling(), older.spelling()),
    {
        lemma_key_order(
            older.identity.partition,
            wal_segment(),
            older.identity.batch.value,
            newer.identity.batch.value,
        );
    }
}

impl std::str::FromStr for WalKey {
    type Err = KeySpellingError;

    fn from_str(input: &str) -> (parsed: Result<Self, KeySpellingError>)
        ensures
            parsed == WalKey::spec_parse(input.spec_bytes()),
    {
        WalKey::parse_text(input)
    }
}

impl From<WalIdentity> for WalKey {
    fn from(identity: WalIdentity) -> (key: Self) {
        WalKey { identity }
    }
}

impl vstd::std_specs::convert::FromSpecImpl<WalIdentity> for WalKey {
    open spec fn obeys_from_spec() -> bool {
        true
    }

    open spec fn from_spec(identity: WalIdentity) -> Self {
        WalKey { identity }
    }
}

// Table keys

/// The durable key of one table object.
#[derive(Debug, Clone, Copy, PartialEq, Eq, PartialOrd, Ord, Hash)]
pub struct TableKey {
    pub partition: PartitionId,
    pub object: TableObjectId,
}

/// `<owner claim>-<counter>`, both twenty digits wide.
pub open spec fn attempt_segment(attempt: AttemptId) -> Seq<u8> {
    crate::domain::text::fixed_decimal(attempt.owner_claim.value as nat, 20) + seq![hyphen()]
        + crate::domain::text::fixed_decimal(attempt.local_counter as nat, 20)
}

/// `partition/<uuid>/table/v1/<store>/<birth>/<owner>-<counter>/<ordinal>`.
pub open spec fn table_parts(key: TableKey) -> Seq<Seq<u8>> {
    let fresh = key.object.fresh;
    seq![
        partition_segment(),
        crate::domain::partition::uuid_text(key.partition.octets@),
        table_segment(),
        version_segment(),
        store_segment(key.object.store),
        crate::domain::text::fixed_decimal(fresh.birth_generation.value as nat, 20),
        attempt_segment(fresh.attempt),
        crate::domain::text::fixed_decimal(fresh.ordinal as nat, 10),
    ]
}

/// The store that a segment spells.
pub open spec fn spec_parse_store(segment: Seq<u8>) -> Option<StoreKind> {
    if segment == store_segment(StoreKind::Directory) {
        Some(StoreKind::Directory)
    } else if segment == store_segment(StoreKind::Ledger) {
        Some(StoreKind::Ledger)
    } else if segment == store_segment(StoreKind::Tally) {
        Some(StoreKind::Tally)
    } else if segment == store_segment(StoreKind::Annals) {
        Some(StoreKind::Annals)
    } else {
        None
    }
}

/// The owner claim and the counter that an attempt segment spells.
pub open spec fn spec_parse_attempt(segment: Seq<u8>) -> Option<(u64, u64)> {
    let halves = crate::domain::text::segments(segment, hyphen());
    if halves.len() != 2 {
        None
    } else {
        match (
            crate::domain::text::spec_parse_digits(halves[0], 20),
            crate::domain::text::spec_parse_digits(halves[1], 20),
        ) {
            (Some(owner), Some(counter)) => Some((owner, counter)),
            _ => None,
        }
    }
}

/// The ordinal that a segment spells.
pub open spec fn spec_parse_ordinal(segment: Seq<u8>) -> Option<u32> {
    match crate::domain::text::spec_parse_digits(segment, 10) {
        Some(ordinal) => if ordinal <= u32::MAX {
            Some(ordinal as u32)
        } else {
            None
        },
        None => None,
    }
}

/// The table that checked coordinates identify.
pub open spec fn spec_table_identity(
    partition: Seq<u8>,
    store: StoreKind,
    birth: u64,
    attempt: (u64, u64),
    ordinal: u32,
) -> Result<TableKey, KeySpellingError> {
    match PartitionId::spec_parse(partition) {
        Err(error) => Err(KeySpellingError::Partition(error)),
        Ok(partition) => if birth == 0 || attempt.0 == 0 {
            Err(KeySpellingError::ZeroCoordinate)
        } else {
            let owner_claim = SealGeneration { value: attempt.0 };
            let attempt = AttemptId { owner_claim, local_counter: attempt.1 };
            match FreshIdentity::spec_new(SealGeneration { value: birth }, attempt, ordinal) {
                Ok(fresh) => Ok(TableKey { partition, object: TableObjectId { fresh, store } }),
                Err(_) => Err(KeySpellingError::InvalidTableIdentity),
            }
        },
    }
}

impl TableKey {
    pub open spec fn wf(self) -> bool {
        self.partition.wf() && self.object.wf()
    }

    pub open spec fn spelling(self) -> Seq<u8> {
        crate::domain::text::joined(table_parts(self), slash())
    }

    /// The table that a key text names. Segments are read in order: what is wrong
    /// with an earlier one is reported before what is missing or wrong later on.
    pub open spec fn spec_parse(text: Seq<u8>) -> Result<Self, KeySpellingError> {
        let parts = crate::domain::text::segments(text, slash());
        if parts[0] != partition_segment() || parts.len() < 3 || parts[2] != table_segment() {
            Err(KeySpellingError::Shape)
        } else if parts.len() < 4 || parts[3] != version_segment() {
            Err(KeySpellingError::UnsupportedNamespace)
        } else if parts.len() < 5 {
            Err(KeySpellingError::Shape)
        } else if spec_parse_store(parts[4]) is None {
            Err(KeySpellingError::TableStore)
        } else if parts.len() < 6 {
            Err(KeySpellingError::Shape)
        } else if crate::domain::text::spec_parse_digits(parts[5], 20) is None {
            Err(KeySpellingError::TableCoordinate)
        } else if parts.len() < 7 {
            Err(KeySpellingError::Shape)
        } else if spec_parse_attempt(parts[6]) is None {
            Err(KeySpellingError::TableCoordinate)
        } else if parts.len() < 8 {
            Err(KeySpellingError::Shape)
        } else if spec_parse_ordinal(parts[7]) is None {
            Err(KeySpellingError::TableCoordinate)
        } else if parts.len() > 8 {
            Err(KeySpellingError::Shape)
        } else {
            spec_table_identity(
                parts[1],
                spec_parse_store(parts[4])->0,
                crate::domain::text::spec_parse_digits(parts[5], 20)->0,
                spec_parse_attempt(parts[6])->0,
                spec_parse_ordinal(parts[7])->0,
            )
        }
    }

    pub fn new(partition: PartitionId, object: TableObjectId) -> (key: Self)
        ensures
            key == (TableKey { partition, object }),
    {
        TableKey { partition, object }
    }

    pub fn partition(self) -> (partition: PartitionId)
        ensures
            partition == self.partition,
    {
        self.partition
    }

    pub fn object(self) -> (object: TableObjectId)
        ensures
            object == self.object,
    {
        self.object
    }

    /// Reads a canonical spelling.
    pub fn parse_text(input: &str) -> (key: Result<Self, KeySpellingError>)
        ensures
            key == Self::spec_parse(input.spec_bytes()),
            key matches Ok(key) ==> key.wf(),
    {
        let bytes = input.as_bytes();
        proof {
            crate::domain::text::lemma_joined_segments(bytes@, slash());
        }
        let parts = split_segments(bytes, 47);
        if !is_bytes_equal(parts[0], "partition".as_bytes()) {
            return Err(KeySpellingError::Shape);
        }
        if parts.len() < 3 || !is_bytes_equal(parts[2], "table".as_bytes()) {
            return Err(KeySpellingError::Shape);
        }
        if parts.len() < 4 || !is_bytes_equal(parts[3], "v1".as_bytes()) {
            return Err(KeySpellingError::UnsupportedNamespace);
        }
        if parts.len() < 5 {
            return Err(KeySpellingError::Shape);
        }
        let store = match parse_store(parts[4]) {
            Some(store) => store,
            None => {
                return Err(KeySpellingError::TableStore);
            },
        };
        if parts.len() < 6 {
            return Err(KeySpellingError::Shape);
        }
        let birth: u64 = match parse_digits(parts[5], 20) {
            Some(birth) => birth,
            None => {
                return Err(KeySpellingError::TableCoordinate);
            },
        };
        if parts.len() < 7 {
            return Err(KeySpellingError::Shape);
        }
        let attempt: (u64, u64) = match parse_attempt(parts[6]) {
            Some(attempt) => attempt,
            None => {
                return Err(KeySpellingError::TableCoordinate);
            },
        };
        if parts.len() < 8 {
            return Err(KeySpellingError::Shape);
        }
        let ordinal: u32 = match parse_digits(parts[7], 10) {
            Some(ordinal) => if ordinal <= u32::MAX as u64 {
                ordinal as u32
            } else {
                return Err(KeySpellingError::TableCoordinate);
            },
            None => {
                return Err(KeySpellingError::TableCoordinate);
            },
        };
        if parts.len() > 8 {
            return Err(KeySpellingError::Shape);
        }
        table_identity(parts[1], store, birth, attempt, ordinal)
    }

    /// The canonical spelling.
    pub fn to_string(&self) -> (text: String)
        ensures
            text@ == crate::domain::text::ascii_chars(self.spelling()),
    {
        let fresh = self.object.fresh;
        let mut out: Vec<u8> = Vec::new();
        push_namespace(&mut out, self.partition, "table".as_bytes());
        out.push(47);
        push_bytes(&mut out, store_name(self.object.store).as_bytes());
        out.push(47);
        push_fixed_decimal(&mut out, fresh.birth_generation.value, 20);
        out.push(47);
        push_fixed_decimal(&mut out, fresh.attempt.owner_claim.value, 20);
        out.push(45);
        push_fixed_decimal(&mut out, fresh.attempt.local_counter, 20);
        out.push(47);
        push_fixed_decimal(&mut out, fresh.ordinal as u64, 10);
        proof {
            lemma_table_spelling(*self);
            assert(out@ =~= self.spelling());
            lemma_table_parts(*self);
        }
        text_of_ascii(out.as_slice())
    }

    /// A valid key is what its own spelling parses to, and no other text parses
    /// to it.
    pub proof fn law_spelling_is_canonical(self, text: Seq<u8>)
        requires
            self.wf(),
        ensures
            Self::spec_parse(text) == Ok::<Self, KeySpellingError>(self) <==> text
                == self.spelling(),
    {
        if text == self.spelling() {
            lemma_table_round_trip(self);
        }
        if Self::spec_parse(text) == Ok::<Self, KeySpellingError>(self) {
            lemma_table_canonical(text, self);
        }
    }
}

impl std::str::FromStr for TableKey {
    type Err = KeySpellingError;

    fn from_str(input: &str) -> (parsed: Result<Self, KeySpellingError>)
        ensures
            parsed == TableKey::spec_parse(input.spec_bytes()),
    {
        TableKey::parse_text(input)
    }
}

fn table_identity(
    partition: &[u8],
    store: StoreKind,
    birth: u64,
    attempt: (u64, u64),
    ordinal: u32,
) -> (key: Result<TableKey, KeySpellingError>)
    ensures
        key == spec_table_identity(partition@, store, birth, attempt, ordinal),
        key matches Ok(key) ==> key.wf(),
{
    let partition = match PartitionId::parse_bytes(partition) {
        Ok(partition) => partition,
        Err(error) => {
            return Err(KeySpellingError::Partition(error));
        },
    };
    let birth = match SealGeneration::try_from(birth) {
        Ok(birth) => birth,
        Err(_zero) => {
            return Err(KeySpellingError::ZeroCoordinate);
        },
    };
    let owner = match SealGeneration::try_from(attempt.0) {
        Ok(owner) => owner,
        Err(_zero) => {
            return Err(KeySpellingError::ZeroCoordinate);
        },
    };
    match FreshIdentity::new(birth, AttemptId::new(owner, attempt.1), ordinal) {
        Ok(fresh) => Ok(TableKey { partition, object: TableObjectId { fresh, store } }),
        Err(_order) => Err(KeySpellingError::InvalidTableIdentity),
    }
}

fn parse_attempt(segment: &[u8]) -> (attempt: Option<(u64, u64)>)
    ensures
        attempt == spec_parse_attempt(segment@),
{
    let halves = split_segments(segment, 45);
    if halves.len() != 2 {
        return None;
    }
    match (parse_digits(halves[0], 20), parse_digits(halves[1], 20)) {
        (Some(owner), Some(counter)) => Some((owner, counter)),
        _ => None,
    }
}

fn store_name(store: StoreKind) -> (name: &'static str)
    ensures
        name.spec_bytes() == store_segment(store),
{
    match store {
        StoreKind::Directory => "directory",
        StoreKind::Ledger => "ledger",
        StoreKind::Tally => "tally",
        StoreKind::Annals => "annals",
    }
}

fn parse_store(segment: &[u8]) -> (store: Option<StoreKind>)
    ensures
        store == spec_parse_store(segment@),
{
    if is_bytes_equal(segment, "directory".as_bytes()) {
        Some(StoreKind::Directory)
    } else if is_bytes_equal(segment, "ledger".as_bytes()) {
        Some(StoreKind::Ledger)
    } else if is_bytes_equal(segment, "tally".as_bytes()) {
        Some(StoreKind::Tally)
    } else if is_bytes_equal(segment, "annals".as_bytes()) {
        Some(StoreKind::Annals)
    } else {
        None
    }
}

/// The attempt segment is plain and splits at its only hyphen.
proof fn lemma_attempt_segment(attempt: AttemptId)
    ensures
        is_plain_segment(attempt_segment(attempt)),
        crate::domain::text::segments(attempt_segment(attempt), hyphen()) == seq![
            crate::domain::text::fixed_decimal(attempt.owner_claim.value as nat, 20),
            crate::domain::text::fixed_decimal(attempt.local_counter as nat, 20),
        ],
{
    let owner = crate::domain::text::fixed_decimal(attempt.owner_claim.value as nat, 20);
    let counter = crate::domain::text::fixed_decimal(attempt.local_counter as nat, 20);
    lemma_number_segment(attempt.owner_claim.value as nat, 20);
    lemma_number_segment(attempt.local_counter as nat, 20);
    crate::domain::text::lemma_fixed_decimal_shape(attempt.owner_claim.value as nat, 20);
    crate::domain::text::lemma_fixed_decimal_shape(attempt.local_counter as nat, 20);
    assert forall|i: int| 0 <= i < owner.len() implies owner[i] != hyphen() by {
        assert(crate::domain::text::is_digit(owner[i]));
    }
    assert forall|i: int| 0 <= i < counter.len() implies counter[i] != hyphen() by {
        assert(crate::domain::text::is_digit(counter[i]));
    }
    crate::domain::text::lemma_segments_last(counter, hyphen());
    crate::domain::text::lemma_segments_first(owner, hyphen(), counter);
    assert(seq![owner] + seq![counter] =~= seq![owner, counter]);
    let whole = attempt_segment(attempt);
    assert forall|i: int| 0 <= i < whole.len() implies #[trigger] whole[i] < 128 && whole[i]
        != slash() by {
        if i < owner.len() {
            assert(owner[i] < 128);
        } else if i > owner.len() {
            assert(counter[i - owner.len() - 1] < 128);
        }
    }
}

proof fn lemma_table_parts(key: TableKey)
    ensures
        crate::domain::text::segments(key.spelling(), slash()) == table_parts(key),
        crate::domain::text::all_ascii(key.spelling()),
{
    let fresh = key.object.fresh;
    lemma_fixed_segments();
    crate::domain::partition::lemma_uuid_text_bytes(key.partition.octets@);
    lemma_number_segment(fresh.birth_generation.value as nat, 20);
    lemma_attempt_segment(fresh.attempt);
    lemma_number_segment(fresh.ordinal as nat, 10);
    let parts = table_parts(key);
    assert(is_plain_segment(store_segment(key.object.store)));
    assert forall|i: int| 0 <= i < parts.len() implies is_plain_segment(#[trigger] parts[i]) by {}
    lemma_segments_joined(parts);
}

proof fn lemma_table_spelling(key: TableKey)
    ensures
        key.spelling() == namespace_text(key.partition, table_segment()) + seq![slash()]
            + store_segment(key.object.store) + seq![slash()]
            + crate::domain::text::fixed_decimal(
            key.object.fresh.birth_generation.value as nat,
            20,
        ) + seq![slash()] + attempt_segment(key.object.fresh.attempt) + seq![slash()]
            + crate::domain::text::fixed_decimal(key.object.fresh.ordinal as nat, 10),
{
    let p = table_parts(key);
    lemma_joined_4(p[0], p[1], p[2], p[3]);
    lemma_joined_4(p[4], p[5], p[6], p[7]);
    lemma_joined_split(p, 4);
    assert(p.take(4) =~= seq![p[0], p[1], p[2], p[3]]);
    assert(p.skip(4) =~= seq![p[4], p[5], p[6], p[7]]);
    assert(key.spelling() =~= namespace_text(key.partition, table_segment()) + seq![slash()] + p[4]
        + seq![slash()] + p[5] + seq![slash()] + p[6] + seq![slash()] + p[7]);
}

proof fn lemma_joined_split(parts: Seq<Seq<u8>>, at: int)
    requires
        0 < at < parts.len(),
    ensures
        crate::domain::text::joined(parts, slash()) == crate::domain::text::joined(
            parts.take(at),
            slash(),
        ) + seq![slash()] + crate::domain::text::joined(parts.skip(at), slash()),
    decreases at,
{
    let rest = parts.skip(1);
    if at == 1 {
        assert(parts.take(1) =~= seq![parts[0]]);
    } else {
        lemma_joined_split(rest, at - 1);
        assert(parts.take(at).skip(1) =~= rest.take(at - 1));
        assert(parts.skip(at) =~= rest.skip(at - 1));
        assert(parts.take(at)[0] == parts[0]);
    }
    assert(crate::domain::text::joined(parts, slash()) =~= crate::domain::text::joined(
        parts.take(at),
        slash(),
    ) + seq![slash()] + crate::domain::text::joined(parts.skip(at), slash()));
}

proof fn lemma_table_round_trip(key: TableKey)
    requires
        key.wf(),
    ensures
        TableKey::spec_parse(key.spelling()) == Ok::<TableKey, KeySpellingError>(key),
{
    let fresh = key.object.fresh;
    lemma_table_parts(key);
    lemma_fixed_segments();
    lemma_attempt_segment(fresh.attempt);
    key.partition.law_spelling_round_trips();
    crate::domain::text::lemma_machine_numbers_fit();
    lemma_number_round_trip(fresh.birth_generation.value as nat, 20);
    lemma_number_round_trip(fresh.attempt.owner_claim.value as nat, 20);
    lemma_number_round_trip(fresh.attempt.local_counter as nat, 20);
    lemma_number_round_trip(fresh.ordinal as nat, 10);
    let parts = table_parts(key);
    assert(spec_parse_store(parts[4]) == Some(key.object.store));
    assert(spec_parse_attempt(parts[6]) == Some(
        (fresh.attempt.owner_claim.value, fresh.attempt.local_counter),
    ));
}

proof fn lemma_number_round_trip(value: nat, width: nat)
    requires
        value < crate::domain::text::ten_to(width),
        value <= u64::MAX,
    ensures
        crate::domain::text::spec_parse_digits(
            crate::domain::text::fixed_decimal(value, width),
            width,
        ) == Some(value as u64),
{
    crate::domain::text::lemma_fixed_decimal_shape(value, width);
    crate::domain::text::lemma_fixed_decimal_value(value, width);
}

proof fn lemma_table_canonical(text: Seq<u8>, key: TableKey)
    requires
        TableKey::spec_parse(text) == Ok::<TableKey, KeySpellingError>(key),
    ensures
        text == key.spelling(),
{
    let parts = crate::domain::text::segments(text, slash());
    crate::domain::text::lemma_joined_segments(text, slash());
    crate::domain::text::lemma_digits_are_fixed_decimal(parts[5]);
    crate::domain::text::lemma_digits_are_fixed_decimal(parts[7]);
    let halves = crate::domain::text::segments(parts[6], hyphen());
    crate::domain::text::lemma_joined_segments(parts[6], hyphen());
    crate::domain::text::lemma_digits_are_fixed_decimal(halves[0]);
    crate::domain::text::lemma_digits_are_fixed_decimal(halves[1]);
    reveal_with_fuel(crate::domain::text::joined, 2);
    assert(halves.skip(1) =~= seq![halves[1]]);
    assert(parts[6] == attempt_segment(key.object.fresh.attempt));
    assert(parts =~= table_parts(key));
}

} // verus!
