//! Checked archive codec for log objects.

use vstd::prelude::*;

use crate::domain::archive::{
    blank_unread, decode_bound, has_open_layout, read_open_wal_archive, read_wal_archive,
    write_open_wal_archive, write_wal_archive, DecodeError, EncodeError, FactArchive,
    OpenFactArchive, OpenWalArchive, RawFact, RawOpenFact, RawOpenWal, RawWal, WalArchive,
};
use crate::domain::bounds::{WAL_ENCODED_BYTES_MAX, WAL_RUN_FACTS_MAX};
use crate::domain::coordinate::{BatchId, OwnerToken, SealGeneration, StreamUid};
use crate::domain::directory::DirectoryKey;
use crate::domain::partition::PartitionId;
use crate::domain::protocol::{
    is_path_accepted, ExpiresAt, ExpiryPolicy, ProtocolField, ProtocolText, StreamContentType,
    StreamLifecycle, StreamTtl,
};
use crate::domain::text::copy_bytes;
use crate::domain::wal::{
    BoundedNonEmptyVec, FactModel, OperationFact, WalBody, WalIdentity, WalModel, WalObject,
};

verus! {

/// The archived number of a lifecycle.
pub open spec fn lifecycle_tag(lifecycle: StreamLifecycle) -> u8 {
    match lifecycle {
        StreamLifecycle::Open => 0,
        StreamLifecycle::Closed => 1,
    }
}

/// The lifecycle of an archived number.
pub open spec fn tagged_lifecycle(tag: u8) -> StreamLifecycle {
    if tag == 0 {
        StreamLifecycle::Open
    } else {
        StreamLifecycle::Closed
    }
}

/// The two's complement pattern of a signed number.
pub open spec fn signed_bits(value: i128) -> u128 {
    if value >= 0 {
        value as u128
    } else {
        (value + 0x1_0000_0000_0000_0000_0000_0000_0000_0000) as u128
    }
}

/// The signed number of a two's complement pattern.
pub open spec fn signed_value(bits: u128) -> i128 {
    if bits <= i128::MAX {
        bits as i128
    } else {
        (bits - 0x1_0000_0000_0000_0000_0000_0000_0000_0000) as i128
    }
}

/// Variant and payload of an expiry policy.
pub open spec fn expiry_archive(expiry: ExpiryPolicy) -> (u8, u128) {
    match expiry {
        ExpiryPolicy::Never => (0, 0),
        ExpiryPolicy::SlidingTtl(ttl) => (1, ttl.seconds as u128),
        ExpiryPolicy::AbsoluteExpiry(at) => (2, signed_bits(at.unix_nanoseconds)),
    }
}

/// The policy of an archived variant and payload. A time to live is the payload's
/// low half.
pub open spec fn archived_expiry(raw: (u8, u128)) -> ExpiryPolicy {
    if raw.0 == 0 {
        ExpiryPolicy::Never
    } else if raw.0 == 1 {
        ExpiryPolicy::SlidingTtl(StreamTtl { seconds: (raw.1 % 0x1_0000_0000_0000_0000) as u64 })
    } else {
        ExpiryPolicy::AbsoluteExpiry(ExpiresAt { unix_nanoseconds: signed_value(raw.1) })
    }
}

pub proof fn lemma_expiry_archive(expiry: ExpiryPolicy)
    ensures
        archived_expiry(expiry_archive(expiry)) == expiry,
        expiry_archive(expiry).0 <= 2,
{
}

pub fn encode_expiry(expiry: ExpiryPolicy) -> (raw: (u8, u128))
    ensures
        raw == expiry_archive(expiry),
{
    match expiry {
        ExpiryPolicy::Never => (0u8, 0u128),
        ExpiryPolicy::SlidingTtl(ttl) => (1u8, ttl.seconds as u128),
        ExpiryPolicy::AbsoluteExpiry(at) => {
            let value: i128 = at.unix_nanoseconds;
            let bits: u128 = if value >= 0 {
                value as u128
            } else {
                u128::MAX - (-(value + 1)) as u128
            };
            (2u8, bits)
        },
    }
}

/// Reads an archived policy; fails on a zero time to live and on an instant that
/// the grammar refuses.
pub fn decode_expiry<Grammar: Fn(ProtocolField<'_>) -> bool>(
    raw: (u8, u128),
    grammar: &Grammar,
) -> (expiry: Option<ExpiryPolicy>)
    requires
        raw.0 <= 2,
        crate::domain::protocol::is_total(*grammar),
    ensures
        expiry matches Some(expiry) ==> expiry == archived_expiry(raw) && expiry.wf(),
        forall|accepts: spec_fn(ProtocolText) -> bool|
            #[trigger] crate::domain::protocol::decides(*grammar, accepts) ==> expiry is Some == (
            archived_expiry(raw).wf() && archived_expiry(raw).accepted(accepts)),
{
    if raw.0 == 0 {
        return Some(ExpiryPolicy::Never);
    }
    if raw.0 == 1 {
        let seconds: u64 = (raw.1 % 0x1_0000_0000_0000_0000) as u64;
        if seconds == 0 {
            return None;
        }
        return Some(ExpiryPolicy::SlidingTtl(StreamTtl { seconds }));
    }
    let unix_nanoseconds: i128 = if raw.1 <= i128::MAX as u128 {
        raw.1 as i128
    } else {
        -((u128::MAX - raw.1) as i128) - 1
    };
    assert(unix_nanoseconds == signed_value(raw.1));
    if grammar(ProtocolField::ExpiresAt(unix_nanoseconds)) {
        Some(ExpiryPolicy::AbsoluteExpiry(ExpiresAt { unix_nanoseconds }))
    } else {
        None
    }
}

pub fn encode_lifecycle(lifecycle: StreamLifecycle) -> (raw: u8)
    ensures
        raw == lifecycle_tag(lifecycle),
{
    match lifecycle {
        StreamLifecycle::Open => 0,
        StreamLifecycle::Closed => 1,
    }
}

pub fn decode_lifecycle(raw: u8) -> (lifecycle: StreamLifecycle)
    ensures
        lifecycle == tagged_lifecycle(raw),
{
    if raw == 0 {
        StreamLifecycle::Open
    } else {
        StreamLifecycle::Closed
    }
}

/// The plain values that a fact is archived as.
pub open spec fn fact_archive(fact: FactModel) -> FactArchive {
    match fact {
        FactModel::StreamCreated { path, uid, content_type, expiry, lifecycle } => (
            0,
            path,
            uid.value,
            content_type,
            expiry_archive(expiry),
            lifecycle_tag(lifecycle),
        ),
        FactModel::StreamClosed { path, uid } => (
            1,
            path,
            uid.value,
            crate::domain::archive::blank_text(),
            (0, 0),
            0,
        ),
        FactModel::StreamDeleted { path, uid } => (
            2,
            path,
            uid.value,
            crate::domain::archive::blank_text(),
            (0, 0),
            0,
        ),
    }
}

/// What archived plain values of a fact say.
pub open spec fn archived_fact(raw: FactArchive) -> FactModel {
    let uid = StreamUid { value: raw.2 };
    if raw.0 == 1 {
        FactModel::StreamClosed { path: raw.1, uid }
    } else if raw.0 == 2 {
        FactModel::StreamDeleted { path: raw.1, uid }
    } else {
        FactModel::StreamCreated {
            path: raw.1,
            uid,
            content_type: raw.3,
            expiry: archived_expiry(raw.4),
            lifecycle: tagged_lifecycle(raw.5),
        }
    }
}

/// Variants are known and the stream is not the reserved zero.
pub open spec fn fact_structured(raw: FactArchive) -> bool {
    &&& raw.0 <= 2
    &&& raw.2 != 0
    &&& raw.0 == 0 ==> raw.4.0 <= 2 && raw.5 <= 1
}

/// The grammar accepts every protocol field of the fact.
pub open spec fn fact_accepted(fact: FactModel, accepts: spec_fn(ProtocolText) -> bool) -> bool {
    &&& crate::domain::protocol::path_accepted(fact.spec_path(), accepts)
    &&& fact matches FactModel::StreamCreated { content_type, expiry, .. } ==> {
        &&& crate::domain::protocol::content_type_accepted(content_type, accepts)
        &&& expiry.wf()
        &&& expiry.accepted(accepts)
    }
}

pub open spec fn facts_archive(facts: Seq<FactModel>) -> Seq<FactArchive> {
    facts.map(|_i: int, fact: FactModel| fact_archive(fact))
}

pub open spec fn archived_facts(raw: Seq<FactArchive>) -> Seq<FactModel> {
    raw.map(|_i: int, fact: FactArchive| archived_fact(fact))
}

pub open spec fn facts_structured(raw: Seq<FactArchive>) -> bool {
    forall|i: int| 0 <= i < raw.len() ==> fact_structured(#[trigger] raw[i])
}

pub open spec fn facts_accepted(
    facts: Seq<FactModel>,
    accepts: spec_fn(ProtocolText) -> bool,
) -> bool {
    forall|i: int| 0 <= i < facts.len() ==> fact_accepted(#[trigger] facts[i], accepts)
}

/// The plain values that a log object is archived as.
pub open spec fn wal_archive(object: WalModel) -> WalArchive {
    (
        object.partition.octets@,
        object.batch.value,
        object.owner.generation.value,
        match object.facts {
            Some(facts) => Some(facts_archive(facts)),
            None => None,
        },
    )
}

/// Reserved zeros and unknown variants are structural faults.
pub open spec fn wal_structured(raw: WalArchive) -> bool {
    &&& raw.1 != 0
    &&& raw.2 != 0
    &&& raw.3 matches Some(facts) ==> facts_structured(facts)
}

/// No fact creates a stream closed.
pub open spec fn creates_open(value: WalArchive) -> bool {
    value.3 matches Some(facts) ==> forall|i: int|
        0 <= i < facts.len() ==> (#[trigger] facts[i]).5 == 0
}

/// The fact without its lifecycle.
pub open spec fn bare_fact(fact: FactArchive) -> OpenFactArchive {
    (fact.0, fact.1, fact.2, fact.3, fact.4)
}

/// The facts without their lifecycles.
pub open spec fn bare_facts(facts: Seq<FactArchive>) -> Seq<OpenFactArchive> {
    facts.map(|_i: int, fact: FactArchive| bare_fact(fact))
}

/// The object without its facts' lifecycles.
pub open spec fn bare_wal(value: WalArchive) -> OpenWalArchive {
    (
        value.0,
        value.1,
        value.2,
        match value.3 {
            Some(facts) => Some(bare_facts(facts)),
            None => None,
        },
    )
}

/// The bytes of a log object. Only a RUN that creates a stream closed spends a byte of
/// each fact on the lifecycle.
pub open spec fn stored_wal_bytes(value: WalArchive) -> Seq<u8> {
    if creates_open(value) {
        crate::domain::archive::open_wal_archive_bytes(bare_wal(value))
    } else {
        crate::domain::archive::wal_archive_bytes(value)
    }
}

/// The plain values in the bytes of a log object. A close and a delete have no content
/// type: whatever stands in its place is not looked at.
pub open spec fn stored_wal_value(bytes: Seq<u8>) -> Option<WalArchive> {
    let blanked = crate::domain::archive::blanked(bytes);
    if crate::domain::archive::is_open_layout(bytes) {
        match crate::domain::archive::open_wal_archive_value(blanked) {
            Some(value) => Some(crate::domain::archive::open_wal(value)),
            None => None,
        }
    } else {
        crate::domain::archive::wal_archive_value(blanked)
    }
}

/// The log object that bytes at a durable location hold.
///
/// The complete length is checked first, then the archive's structure, then the
/// partition, then the location, and last what the object says.
pub open spec fn spec_decode_wal(
    identity: WalIdentity,
    bytes: Seq<u8>,
    accepts: spec_fn(ProtocolText) -> bool,
) -> Result<WalModel, DecodeError> {
    if bytes.len() > WAL_ENCODED_BYTES_MAX {
        Err(
            DecodeError::EncodedBytesOverMax {
                bytes_max: WAL_ENCODED_BYTES_MAX,
                bytes_actual: bytes.len() as usize,
            },
        )
    } else {
        match stored_wal_value(bytes) {
            None => Err(DecodeError::MalformedArchive),
            Some(raw) => spec_decode_archived_wal(identity, raw, accepts),
        }
    }
}

/// The log object that archived plain values at a durable location say.
pub open spec fn spec_decode_archived_wal(
    identity: WalIdentity,
    raw: WalArchive,
    accepts: spec_fn(ProtocolText) -> bool,
) -> Result<WalModel, DecodeError> {
    let owner = OwnerToken { generation: SealGeneration { value: raw.2 } };
    if !wal_structured(raw) {
        Err(DecodeError::MalformedArchive)
    } else if raw.0 == seq![0u8; 16] {
        Err(DecodeError::InvalidBody)
    } else if raw.0 != identity.partition.octets@ || raw.1 != identity.batch.value {
        Err(DecodeError::IdentityMismatch)
    } else {
        match raw.3 {
            None => Ok(
                WalModel {
                    partition: identity.partition,
                    batch: identity.batch,
                    owner,
                    facts: None,
                },
            ),
            Some(facts) => if 0 < facts.len() <= WAL_RUN_FACTS_MAX && facts_accepted(
                archived_facts(facts),
                accepts,
            ) {
                Ok(
                    WalModel {
                        partition: identity.partition,
                        batch: identity.batch,
                        owner,
                        facts: Some(archived_facts(facts)),
                    },
                )
            } else {
                Err(DecodeError::InvalidBody)
            },
        }
    }
}

proof fn lemma_facts_room(facts: Seq<FactModel>)
    ensures
        crate::domain::archive::facts_room(facts_archive(facts))
            <= crate::domain::wal::facts_estimate(facts),
    decreases facts.len(),
{
    if facts.len() > 0 {
        lemma_facts_room(facts.drop_last());
        assert(facts_archive(facts).drop_last() =~= facts_archive(facts.drop_last()));
        assert(facts_archive(facts).last() == fact_archive(facts.last()));
        assert(vstd::utf8::encode_utf8(crate::domain::archive::blank_text()).len() == 8) by {
            assert(vstd::utf8::is_ascii_chars(crate::domain::archive::blank_text()));
            vstd::utf8::is_ascii_chars_encode_utf8(crate::domain::archive::blank_text());
        }
    }
}

/// Fails when the complete archive exceeds the WAL bound. The estimate of the
/// object's facts is sound: the archive is never longer, so an object whose estimate
/// is inside the bound is never refused.
pub fn encode_wal(object: &WalObject) -> (encoded: Result<Vec<u8>, EncodeError>)
    ensures
        object@.estimated() <= WAL_ENCODED_BYTES_MAX ==> encoded is Ok,
        encoded matches Ok(bytes) ==> bytes@.len() <= object@.estimated(),
        match encoded {
            Ok(bytes) => {
                &&& bytes@ == stored_wal_bytes(wal_archive(object@))
                &&& 0 < bytes@.len() <= WAL_ENCODED_BYTES_MAX
                &&& stored_wal_value(bytes@) == Some(wal_archive(object@))
            },
            Err(error) => {
                &&& error == (EncodeError::EncodedBytesOverMax { bytes_max: WAL_ENCODED_BYTES_MAX })
                &&& stored_wal_bytes(wal_archive(object@)).len()
                    > WAL_ENCODED_BYTES_MAX
            },
        },
{
    let raw: RawWal = match object {
        WalObject::Run(run) => (
            run.partition.octets,
            run.batch.value,
            run.owner.generation.value,
            Ok(encode_facts(run.facts.as_slice())),
        ),
        WalObject::Fence(fence) => (
            fence.partition.octets,
            fence.batch.value,
            fence.owner.generation.value,
            Err(()),
        ),
    };
    let ghost value = wal_archive(object@);
    proof {
        assert(crate::domain::archive::wal_value(raw) == value);
        if let Some(facts) = object@.facts {
            lemma_facts_room(facts);
            assert forall|i: int|
                0 <= i < facts.len() && crate::domain::archive::is_textless(
                    value.3->0[i].0,
                ) implies (#[trigger] value.3->0[i]).3 == crate::domain::archive::blank_text() by {
                assert(value.3->0[i] == fact_archive(facts[i]));
            }
        }
    }
    let written = if is_creating_open(&raw) {
        let bare = strip_lifecycles(&raw);
        proof {
            lemma_bare_wal(value);
        }
        write_open_wal_archive(&bare, WAL_ENCODED_BYTES_MAX)
    } else {
        write_wal_archive(&raw, WAL_ENCODED_BYTES_MAX)
    };
    match written {
        Some(bytes) => Ok(bytes),
        None => Err(EncodeError::EncodedBytesOverMax { bytes_max: WAL_ENCODED_BYTES_MAX }),
    }
}

/// Where every stream is created open, the lifecycle says nothing.
proof fn lemma_bare_wal(value: WalArchive)
    requires
        creates_open(value),
    ensures
        crate::domain::archive::open_wal(bare_wal(value)) == value,
{
    if let Some(facts) = value.3 {
        assert(crate::domain::archive::open_facts(bare_facts(facts)) =~= facts);
    }
}

fn is_creating_open(raw: &RawWal) -> (open: bool)
    ensures
        open == creates_open(crate::domain::archive::wal_value(*raw)),
{
    match &raw.3 {
        Err(_) => true,
        Ok(facts) => {
            let ghost value = facts.deep_view();
            let mut at: usize = 0;
            while at < facts.len()
                invariant
                    at <= facts.len(),
                    value == facts.deep_view(),
                    crate::domain::archive::wal_value(*raw).3 == Some(value),
                    forall|i: int| 0 <= i < at ==> (#[trigger] value[i]).5 == 0,
                decreases facts.len() - at,
            {
                assert(value[at as int] == facts@[at as int].deep_view());
                if facts[at].5 != 0 {
                    proof {
                        let held = crate::domain::archive::wal_value(*raw).3->0;
                        assert(held[at as int].5 != 0);
                    }
                    return false;
                }
                at += 1;
            }
            true
        },
    }
}

fn strip_lifecycles(raw: &RawWal) -> (bare: RawOpenWal)
    ensures
        crate::domain::archive::open_wal_value(bare) == bare_wal(
            crate::domain::archive::wal_value(*raw),
        ),
{
    let facts: Result<Vec<RawOpenFact>, ()> = match &raw.3 {
        Err(_) => Err(()),
        Ok(facts) => {
            let mut bare: Vec<RawOpenFact> = Vec::new();
            let mut at: usize = 0;
            while at < facts.len()
                invariant
                    at <= facts.len(),
                    bare@.len() == at,
                    forall|i: int|
                        0 <= i < at ==> (#[trigger] bare@[i]).deep_view() == bare_fact(
                            facts@[i].deep_view(),
                        ),
                decreases facts.len() - at,
            {
                let fact: &RawFact = &facts[at];
                let stripped: RawOpenFact = (
                    fact.0,
                    copy_bytes(fact.1.as_slice()),
                    fact.2,
                    fact.3.clone(),
                    fact.4,
                );
                assert(stripped.1.deep_view() =~= fact.1.deep_view());
                bare.push(stripped);
                at += 1;
            }
            assert(bare.deep_view() =~= bare_facts(facts.deep_view()));
            Ok(bare)
        },
    };
    (raw.0, raw.1, raw.2, facts)
}

fn add_lifecycles(bare: &RawOpenWal) -> (raw: RawWal)
    ensures
        crate::domain::archive::wal_value(raw) == crate::domain::archive::open_wal(
            crate::domain::archive::open_wal_value(*bare),
        ),
{
    let facts: Result<Vec<RawFact>, ()> = match &bare.3 {
        Err(_) => Err(()),
        Ok(facts) => {
            let mut open: Vec<RawFact> = Vec::new();
            let mut at: usize = 0;
            while at < facts.len()
                invariant
                    at <= facts.len(),
                    open@.len() == at,
                    forall|i: int|
                        0 <= i < at ==> (#[trigger] open@[i]).deep_view()
                            == crate::domain::archive::open_fact(facts@[i].deep_view()),
                decreases facts.len() - at,
            {
                let fact: &RawOpenFact = &facts[at];
                let full: RawFact = (
                    fact.0,
                    copy_bytes(fact.1.as_slice()),
                    fact.2,
                    fact.3.clone(),
                    fact.4,
                    0,
                );
                assert(full.1.deep_view() =~= fact.1.deep_view());
                open.push(full);
                at += 1;
            }
            assert(open.deep_view() =~= crate::domain::archive::open_facts(facts.deep_view()));
            Ok(open)
        },
    };
    (bare.0, bare.1, bare.2, facts)
}

fn blank() -> (text: String)
    ensures
        text@ == crate::domain::archive::blank_text(),
{
    let mut text = String::new();
    let mut at: usize = 0;
    while at < 8
        invariant
            at <= 8,
            text@ == Seq::new(at as nat, |_i: int| '\0'),
        decreases 8 - at,
    {
        text.push('\0');
        assert(text@ =~= Seq::new((at + 1) as nat, |_i: int| '\0'));
        at += 1;
    }
    assert(text@ =~= crate::domain::archive::blank_text());
    text
}

fn encode_facts(facts: &[OperationFact]) -> (raw: Vec<RawFact>)
    ensures
        raw.deep_view() == facts_archive(crate::domain::wal::facts_model(facts@)),
{
    let mut raw: Vec<RawFact> = Vec::new();
    let mut at: usize = 0;
    while at < facts.len()
        invariant
            at <= facts.len(),
            raw@.len() == at,
            forall|i: int| 0 <= i < at ==> (#[trigger] raw@[i]).deep_view() == fact_archive(facts@[i]@),
        decreases facts.len() - at,
    {
        raw.push(encode_fact(&facts[at]));
        at += 1;
    }
    assert(raw.deep_view() =~= facts_archive(crate::domain::wal::facts_model(facts@)));
    raw
}

fn encode_fact(fact: &OperationFact) -> (raw: RawFact)
    ensures
        raw.deep_view() == fact_archive(fact@),
{
    let raw: RawFact = match fact {
        OperationFact::StreamCreated { path, uid, content_type, expiry, lifecycle } => (
            0,
            copy_bytes(path.bytes.as_slice()),
            uid.value,
            content_type.text.clone(),
            encode_expiry(*expiry),
            encode_lifecycle(*lifecycle),
        ),
        OperationFact::StreamClosed { path, uid } => (
            1,
            copy_bytes(path.bytes.as_slice()),
            uid.value,
            blank(),
            (0, 0),
            0,
        ),
        OperationFact::StreamDeleted { path, uid } => (
            2,
            copy_bytes(path.bytes.as_slice()),
            uid.value,
            blank(),
            (0, 0),
            0,
        ),
    };
    assert(raw.1.deep_view() =~= fact@.spec_path());
    raw
}

/// Reads the log object at a durable location.
pub fn decode_wal<Grammar: Fn(ProtocolField<'_>) -> bool>(
    identity: &WalIdentity,
    bytes: &[u8],
    grammar: &Grammar,
) -> (object: Result<WalObject, DecodeError>)
    requires
        crate::domain::protocol::is_total(*grammar),
    ensures
        object matches Ok(object) ==> object@.wf() && object@.identity() == *identity,
        forall|accepts: spec_fn(ProtocolText) -> bool|
            #[trigger] crate::domain::protocol::decides(*grammar, accepts) ==> match object {
                Ok(object) => spec_decode_wal(*identity, bytes@, accepts) == Ok::<
                    WalModel,
                    DecodeError,
                >(object@),
                Err(error) => spec_decode_wal(*identity, bytes@, accepts) == Err::<
                    WalModel,
                    DecodeError,
                >(error),
            },
{
    match decode_bound(bytes, WAL_ENCODED_BYTES_MAX) {
        Ok(()) => {},
        Err(error) => {
            return Err(DecodeError::from(error));
        },
    }
    let blank = blank_unread(bytes);
    let read = if has_open_layout(bytes) {
        match read_open_wal_archive(blank.as_slice()) {
            Some(bare) => Some(add_lifecycles(&bare)),
            None => None,
        }
    } else {
        read_wal_archive(blank.as_slice())
    };
    match read {
        None => Err(DecodeError::MalformedArchive),
        Some(raw) => decode_archived_wal(identity, &raw, grammar),
    }
}

/// Checks archived plain values against their durable location.
pub fn decode_archived_wal<Grammar: Fn(ProtocolField<'_>) -> bool>(
    identity: &WalIdentity,
    raw: &RawWal,
    grammar: &Grammar,
) -> (object: Result<WalObject, DecodeError>)
    requires
        crate::domain::protocol::is_total(*grammar),
    ensures
        object matches Ok(object) ==> object@.wf() && object@.identity() == *identity,
        forall|accepts: spec_fn(ProtocolText) -> bool|
            #[trigger] crate::domain::protocol::decides(*grammar, accepts) ==> match object {
                Ok(object) => spec_decode_archived_wal(
                    *identity,
                    crate::domain::archive::wal_value(*raw),
                    accepts,
                ) == Ok::<WalModel, DecodeError>(object@),
                Err(error) => spec_decode_archived_wal(
                    *identity,
                    crate::domain::archive::wal_value(*raw),
                    accepts,
                ) == Err::<WalModel, DecodeError>(error),
            },
{
    if raw.1 == 0 || raw.2 == 0 {
        return Err(DecodeError::MalformedArchive);
    }
    if let Ok(facts) = &raw.3 {
        if !is_facts_structured(facts) {
            return Err(DecodeError::MalformedArchive);
        }
    }
    let partition = match PartitionId::try_from(raw.0) {
        Ok(partition) => partition,
        Err(_nil) => {
            return Err(DecodeError::InvalidBody);
        },
    };
    let batch = BatchId { value: raw.1 };
    let found = WalIdentity { partition, batch };
    if !found.is_same(identity) {
        proof {
            assert(partition.octets@ == identity.partition.octets@ ==> partition.octets
                == identity.partition.octets);
        }
        return Err(DecodeError::IdentityMismatch);
    }
    let owner = OwnerToken { generation: SealGeneration { value: raw.2 } };
    match &raw.3 {
        Err(_) => Ok(WalObject::new(partition, batch, owner, WalBody::Fence)),
        Ok(raw_facts) => {
            if raw_facts.len() == 0 || raw_facts.len() > WAL_RUN_FACTS_MAX {
                return Err(DecodeError::InvalidBody);
            }
            match decode_facts(raw_facts, grammar) {
                Some(values) => {
                    let facts = BoundedNonEmptyVec { values };
                    let object = WalObject::new(partition, batch, owner, WalBody::Run(facts));
                    proof {
                        let said = archived_facts(raw_facts.deep_view());
                        assert(object@.facts == Some(said));
                        assert forall|i: int| 0 <= i < said.len() implies (#[trigger] said[i]).wf() by {
                            assert(fact_structured(raw_facts.deep_view()[i]));
                        }
                    }
                    Ok(object)
                },
                None => Err(DecodeError::InvalidBody),
            }
        },
    }
}

fn is_facts_structured(raw: &Vec<RawFact>) -> (structured: bool)
    ensures
        structured == facts_structured(raw.deep_view()),
{
    let ghost value = raw.deep_view();
    let mut at: usize = 0;
    while at < raw.len()
        invariant
            at <= raw.len(),
            value == raw.deep_view(),
            forall|i: int| 0 <= i < at ==> fact_structured(#[trigger] value[i]),
        decreases raw.len() - at,
    {
        let fact: &RawFact = &raw[at];
        assert(value[at as int] == fact.deep_view());
        if fact.0 > 2 || fact.2 == 0 || (fact.0 == 0 && (fact.4.0 > 2 || fact.5 > 1)) {
            assert(!fact_structured(value[at as int]));
            return false;
        }
        at += 1;
    }
    true
}

fn decode_facts<Grammar: Fn(ProtocolField<'_>) -> bool>(raw: &Vec<RawFact>, grammar: &Grammar) -> (facts:
    Option<Vec<OperationFact>>)
    requires
        facts_structured(raw.deep_view()),
        crate::domain::protocol::is_total(*grammar),
    ensures
        facts matches Some(facts) ==> {
            &&& crate::domain::wal::facts_model(facts@) == archived_facts(raw.deep_view())
            &&& forall|i: int| 0 <= i < facts@.len() ==> (#[trigger] facts@[i])@.wf()
        },
        forall|accepts: spec_fn(ProtocolText) -> bool|
            #[trigger] crate::domain::protocol::decides(*grammar, accepts) ==> facts is Some
                == facts_accepted(archived_facts(raw.deep_view()), accepts),
{
    let ghost said = archived_facts(raw.deep_view());
    let mut facts: Vec<OperationFact> = Vec::new();
    let mut at: usize = 0;
    while at < raw.len()
        invariant
            at <= raw.len(),
            facts_structured(raw.deep_view()),
            crate::domain::protocol::is_total(*grammar),
            said == archived_facts(raw.deep_view()),
            facts@.len() == at,
            forall|i: int|
                0 <= i < at ==> (#[trigger] facts@[i])@ == said[i] && facts@[i]@.wf(),
            forall|accepts: spec_fn(ProtocolText) -> bool|
                #[trigger] crate::domain::protocol::decides(*grammar, accepts) ==> forall|i: int|
                    0 <= i < at ==> fact_accepted(#[trigger] said[i], accepts),
        decreases raw.len() - at,
    {
        assert(fact_structured(raw.deep_view()[at as int]));
        match decode_fact(&raw[at], grammar) {
            Some(fact) => {
                facts.push(fact);
            },
            None => {
                assert forall|accepts: spec_fn(ProtocolText) -> bool|
                    #[trigger] crate::domain::protocol::decides(
                        *grammar,
                        accepts,
                    ) implies !facts_accepted(said, accepts) by {
                    assert(!fact_accepted(said[at as int], accepts));
                }
                return None;
            },
        }
        at += 1;
    }
    assert(crate::domain::wal::facts_model(facts@) =~= said);
    Some(facts)
}

fn decode_fact<Grammar: Fn(ProtocolField<'_>) -> bool>(raw: &RawFact, grammar: &Grammar) -> (fact:
    Option<OperationFact>)
    requires
        fact_structured(raw.deep_view()),
        crate::domain::protocol::is_total(*grammar),
    ensures
        fact matches Some(fact) ==> fact@ == archived_fact(raw.deep_view()) && fact@.wf(),
        forall|accepts: spec_fn(ProtocolText) -> bool|
            #[trigger] crate::domain::protocol::decides(*grammar, accepts) ==> fact is Some
                == fact_accepted(archived_fact(raw.deep_view()), accepts),
{
    assert(raw.1.deep_view() =~= raw.1@);
    if !is_path_accepted(raw.1.as_slice(), grammar) {
        return None;
    }
    let path = DirectoryKey { bytes: copy_bytes(raw.1.as_slice()) };
    let uid = StreamUid { value: raw.2 };
    if raw.0 == 1 {
        return Some(OperationFact::StreamClosed { path, uid });
    }
    if raw.0 == 2 {
        return Some(OperationFact::StreamDeleted { path, uid });
    }
    let content_type = match StreamContentType::new(raw.3.clone(), grammar) {
        Some(content_type) => content_type,
        None => {
            return None;
        },
    };
    match decode_expiry(raw.4, grammar) {
        Some(expiry) => Some(
            OperationFact::StreamCreated {
                path,
                uid,
                content_type,
                expiry,
                lifecycle: decode_lifecycle(raw.5),
            },
        ),
        None => None,
    }
}

proof fn lemma_fact_archive(fact: FactModel)
    requires
        fact.wf(),
    ensures
        fact_structured(fact_archive(fact)),
        archived_fact(fact_archive(fact)) == fact,
{
    if let FactModel::StreamCreated { expiry, .. } = fact {
        lemma_expiry_archive(expiry);
    }
}

/// Reading the bytes that a valid log object was encoded as, at that object's own
/// location, with a grammar that accepts its texts, gives the object back.
///
/// The premise on `bytes` is what [`encode_wal`] ensures of the bytes it returns.
pub proof fn law_wal_round_trips(
    object: WalModel,
    bytes: Seq<u8>,
    accepts: spec_fn(ProtocolText) -> bool,
)
    requires
        object.wf(),
        object.facts matches Some(facts) ==> facts_accepted(facts, accepts),
        bytes.len() <= WAL_ENCODED_BYTES_MAX,
        stored_wal_value(bytes) == Some(wal_archive(object)),
    ensures
        spec_decode_wal(object.identity(), bytes, accepts) == Ok::<WalModel, DecodeError>(object),
{
    if let Some(facts) = object.facts {
        let raw = facts_archive(facts);
        assert forall|i: int| 0 <= i < raw.len() implies fact_structured(#[trigger] raw[i])
            && archived_fact(raw[i]) == facts[i] by {
            assert(facts[i].wf());
            lemma_fact_archive(facts[i]);
        }
        assert(archived_facts(raw) =~= facts);
    }
}

/// Bytes that differ only in the content-type fields of closes and deletes hold the
/// same log object.
pub proof fn law_unread_bytes_do_not_matter(
    identity: WalIdentity,
    bytes: Seq<u8>,
    other: Seq<u8>,
    accepts: spec_fn(ProtocolText) -> bool,
)
    requires
        bytes.len() == other.len(),
        forall|at: int|
            0 <= at < bytes.len() && !crate::domain::archive::is_unread(bytes, at)
                ==> #[trigger] other[at] == bytes[at],
    ensures
        spec_decode_wal(identity, other, accepts) == spec_decode_wal(identity, bytes, accepts),
{
    let len = bytes.len() as int;
    assert(crate::domain::archive::fact_frames(other) == crate::domain::archive::fact_frames(bytes))
        by {
        if len >= 41 {
            assert forall|at: int| len - 41 <= at < len implies #[trigger] other[at] == bytes[at] by {
            }
        }
    }
    assert forall|at: int| 0 <= at < len implies crate::domain::archive::is_unread(other, at)
        == #[trigger] crate::domain::archive::is_unread(bytes, at) by {
        if let Some((start, end)) = crate::domain::archive::fact_frames(bytes) {
            let within = crate::domain::archive::frame_offset(bytes, at - start);
            if start <= at < end {
                let head = at - within;
                assert(crate::domain::archive::frame_offset(bytes, head - start) == 0);
                assert(!crate::domain::archive::is_unread(bytes, head));
                assert(other[head] == bytes[head]);
            }
        }
    }
    assert(crate::domain::archive::blanked(other) =~= crate::domain::archive::blanked(bytes));
}

} // verus!
