//! Frameless Ledger record codec.
//!
//! A record is a sequence of postcard numbers and texts: the record's variant, the
//! stream, and for a live stream its content type, expiry, lifecycle and creation
//! batch.

use vstd::prelude::*;

use crate::domain::coordinate::{BatchId, StreamUid};
use crate::domain::envelope::{decode_body_bound, enforce_encode_bound, DecodeError, EncodeError};
use crate::domain::ledger::{
    LedgerRecord, LedgerRecordModel, PathTombstone, RecordModel, StreamRecord,
};
use crate::domain::protocol::{
    ExpiresAt, ExpiryPolicy, ProtocolField, ProtocolText, StreamContentType, StreamLifecycle,
    StreamTtl,
};
use crate::domain::text::push_bytes;

verus! {

/// The variable-length spelling of a number: seven bits a byte, the lowest first, and
/// the top bit set on every byte but the last.
pub open spec fn varint(value: nat) -> Seq<u8>
    decreases value,
{
    if value < 128 {
        seq![value as u8]
    } else {
        seq![(128 + value % 128) as u8] + varint(value / 128)
    }
}

/// The number that bytes start with, and the rest: at most `bytes_max` bytes spell it,
/// and the last of so many is no greater than `last_max`.
pub open spec fn taken_varint(bytes: Seq<u8>, bytes_max: nat, last_max: u8) -> Option<
    (nat, Seq<u8>),
>
    decreases bytes_max,
{
    if bytes.len() == 0 || bytes_max == 0 {
        None
    } else if bytes[0] < 128 {
        if bytes_max == 1 && bytes[0] > last_max {
            None
        } else {
            Some((bytes[0] as nat, bytes.skip(1)))
        }
    } else {
        match taken_varint(bytes.skip(1), (bytes_max - 1) as nat, last_max) {
            Some((high, rest)) => Some(((bytes[0] - 128 + 128 * high) as nat, rest)),
            None => None,
        }
    }
}

/// The number that a signed one is spelled as: the smaller the magnitude, the smaller.
pub open spec fn zigzag(value: int) -> nat {
    if value >= 0 {
        (2 * value) as nat
    } else {
        (-2 * value - 1) as nat
    }
}

/// The signed number that is spelled as a number.
pub open spec fn unzigzag(value: nat) -> int {
    if value % 2 == 0 {
        value as int / 2
    } else {
        -((value as int + 1) / 2)
    }
}

/// The postcard spelling of a 32-bit number.
pub open spec fn postcard_u32(value: u32) -> Seq<u8> {
    varint(value as nat)
}

/// The postcard spelling of a 64-bit number.
pub open spec fn postcard_u64(value: u64) -> Seq<u8> {
    varint(value as nat)
}

/// The postcard spelling of a signed 128-bit number.
pub open spec fn postcard_i128(value: i128) -> Seq<u8> {
    varint(zigzag(value as int))
}

/// The postcard spelling of a text: the number of its bytes, and the bytes.
pub open spec fn postcard_text(value: Seq<char>) -> Seq<u8> {
    varint(vstd::utf8::encode_utf8(value).len()) + vstd::utf8::encode_utf8(value)
}

/// The 32-bit number that bytes start with, and the rest.
pub open spec fn taken_u32(bytes: Seq<u8>) -> Option<(u32, Seq<u8>)> {
    match taken_varint(bytes, 5, 0x0f) {
        Some((value, rest)) => Some((value as u32, rest)),
        None => None,
    }
}

/// The 64-bit number that bytes start with, and the rest.
pub open spec fn taken_u64(bytes: Seq<u8>) -> Option<(u64, Seq<u8>)> {
    match taken_varint(bytes, 10, 1) {
        Some((value, rest)) => Some((value as u64, rest)),
        None => None,
    }
}

/// The signed 128-bit number that bytes start with, and the rest.
pub open spec fn taken_i128(bytes: Seq<u8>) -> Option<(i128, Seq<u8>)> {
    match taken_varint(bytes, 19, 3) {
        Some((value, rest)) => Some((unzigzag(value) as i128, rest)),
        None => None,
    }
}

/// The length that bytes start with, and the rest: as many bits as the machine's
/// lengths have.
pub open spec fn taken_length(bytes: Seq<u8>) -> Option<(nat, Seq<u8>)> {
    if usize::BITS == 32 {
        taken_varint(bytes, 5, 0x0f)
    } else {
        taken_varint(bytes, 10, 1)
    }
}

/// The text that bytes start with, and the rest.
pub open spec fn taken_text(bytes: Seq<u8>) -> Option<(Seq<char>, Seq<u8>)> {
    match taken_length(bytes) {
        Some((len, rest)) => if len <= rest.len() && vstd::utf8::valid_utf8(
            rest.take(len as int),
        ) {
            Some((vstd::utf8::decode_utf8(rest.take(len as int)), rest.skip(len as int)))
        } else {
            None
        },
        None => None,
    }
}

/// The number's spelling takes no more bytes, and no greater last byte, than are read.
spec fn varint_fits(value: nat, bytes_max: nat, last_max: u8) -> bool
    decreases bytes_max,
{
    if bytes_max == 0 {
        false
    } else if bytes_max == 1 {
        value <= last_max && value < 128
    } else {
        value < 128 || varint_fits(value / 128, (bytes_max - 1) as nat, last_max)
    }
}

/// A number's spelling reads back as the number whatever follows it.
proof fn lemma_varint_reads(value: nat, bytes_max: nat, last_max: u8, rest: Seq<u8>)
    requires
        varint_fits(value, bytes_max, last_max),
    ensures
        taken_varint(varint(value) + rest, bytes_max, last_max) == Some((value, rest)),
    decreases bytes_max,
{
    let bytes = varint(value) + rest;
    if value < 128 {
        assert(bytes.skip(1) =~= rest);
    } else {
        lemma_varint_reads(value / 128, (bytes_max - 1) as nat, last_max, rest);
        assert(bytes.skip(1) =~= varint(value / 128) + rest);
    }
}

proof fn lemma_u32_reads(value: u32)
    ensures
        forall|rest: Seq<u8>|
            taken_u32(#[trigger] (postcard_u32(value) + rest)) == Some((value, rest)),
{
    assert(varint_fits(value as nat, 5, 0x0f)) by {
        reveal_with_fuel(varint_fits, 6);
    }
    assert forall|rest: Seq<u8>|
        taken_u32(#[trigger] (postcard_u32(value) + rest)) == Some((value, rest)) by {
        lemma_varint_reads(value as nat, 5, 0x0f, rest);
    }
}

proof fn lemma_u64_fits(value: nat)
    requires
        value <= u64::MAX,
    ensures
        varint_fits(value, 10, 1),
{
    reveal_with_fuel(varint_fits, 11);
}

proof fn lemma_u64_reads(value: u64)
    ensures
        forall|rest: Seq<u8>|
            taken_u64(#[trigger] (postcard_u64(value) + rest)) == Some((value, rest)),
{
    lemma_u64_fits(value as nat);
    assert forall|rest: Seq<u8>|
        taken_u64(#[trigger] (postcard_u64(value) + rest)) == Some((value, rest)) by {
        lemma_varint_reads(value as nat, 10, 1, rest);
    }
}

proof fn lemma_i128_reads(value: i128)
    ensures
        forall|rest: Seq<u8>|
            taken_i128(#[trigger] (postcard_i128(value) + rest)) == Some((value, rest)),
{
    let spelled = zigzag(value as int);
    assert(varint_fits(spelled, 19, 3)) by {
        assert(spelled <= u128::MAX);
        reveal_with_fuel(varint_fits, 20);
    }
    assert forall|rest: Seq<u8>|
        taken_i128(#[trigger] (postcard_i128(value) + rest)) == Some((value, rest)) by {
        lemma_varint_reads(spelled, 19, 3, rest);
    }
}

proof fn lemma_text_reads(value: Seq<char>)
    requires
        vstd::utf8::encode_utf8(value).len() <= usize::MAX,
    ensures
        forall|rest: Seq<u8>|
            taken_text(#[trigger] (postcard_text(value) + rest)) == Some((value, rest)),
{
    let bytes = vstd::utf8::encode_utf8(value);
    vstd::utf8::encode_utf8_valid_utf8(value);
    vstd::utf8::encode_utf8_decode_utf8(value);
    assert forall|rest: Seq<u8>|
        taken_text(#[trigger] (postcard_text(value) + rest)) == Some((value, rest)) by {
        assert(postcard_text(value) + rest =~= varint(bytes.len()) + (bytes + rest));
        assert((bytes + rest).take(bytes.len() as int) =~= bytes);
        assert((bytes + rest).skip(bytes.len() as int) =~= rest);
        if usize::BITS == 32 {
            assert(varint_fits(bytes.len(), 5, 0x0f)) by {
                reveal_with_fuel(varint_fits, 6);
            }
            lemma_varint_reads(bytes.len(), 5, 0x0f, bytes + rest);
        } else {
            lemma_u64_fits(bytes.len());
            lemma_varint_reads(bytes.len(), 10, 1, bytes + rest);
        }
    }
}

/// `postcard::to_allocvec` of a 32-bit number: its variable-length spelling.
#[verifier::external_body]
fn put_u32(value: u32) -> (bytes: Vec<u8>)
    ensures
        bytes@ == postcard_u32(value),
{
    postcard::to_allocvec(&value).expect("a number always serializes into a vector")
}

/// `postcard::to_allocvec` of a 64-bit number: its variable-length spelling.
#[verifier::external_body]
fn put_u64(value: u64) -> (bytes: Vec<u8>)
    ensures
        bytes@ == postcard_u64(value),
{
    postcard::to_allocvec(&value).expect("a number always serializes into a vector")
}

/// `postcard::to_allocvec` of a signed 128-bit number: the variable-length spelling of
/// its zigzag number.
#[verifier::external_body]
fn put_i128(value: i128) -> (bytes: Vec<u8>)
    ensures
        bytes@ == postcard_i128(value),
{
    postcard::to_allocvec(&value).expect("a number always serializes into a vector")
}

/// `postcard::to_allocvec` of a text: the spelling of its length in bytes, then its
/// UTF-8 bytes.
#[verifier::external_body]
fn put_text(value: &str) -> (bytes: Vec<u8>)
    ensures
        bytes@ == postcard_text(value@),
{
    postcard::to_allocvec(value).expect("a text always serializes into a vector")
}

/// `postcard::take_from_bytes` of a 32-bit number: the number that at most five bytes
/// spell, and the bytes after it; a number of more than 32 bits is refused.
#[verifier::external_body]
fn take_u32<'a>(bytes: &'a [u8]) -> (taken: Option<(u32, &'a [u8])>)
    ensures
        match taken {
            Some(taken) => taken_u32(bytes@) == Some((taken.0, taken.1@)),
            None => taken_u32(bytes@) is None,
        },
{
    postcard::take_from_bytes::<u32>(bytes).ok()
}

/// `postcard::take_from_bytes` of a 64-bit number: the number that at most ten bytes
/// spell, and the bytes after it; a number of more than 64 bits is refused.
#[verifier::external_body]
fn take_u64<'a>(bytes: &'a [u8]) -> (taken: Option<(u64, &'a [u8])>)
    ensures
        match taken {
            Some(taken) => taken_u64(bytes@) == Some((taken.0, taken.1@)),
            None => taken_u64(bytes@) is None,
        },
{
    postcard::take_from_bytes::<u64>(bytes).ok()
}

/// `postcard::take_from_bytes` of a signed 128-bit number: the number whose zigzag
/// number at most nineteen bytes spell, and the bytes after it.
#[verifier::external_body]
fn take_i128<'a>(bytes: &'a [u8]) -> (taken: Option<(i128, &'a [u8])>)
    ensures
        match taken {
            Some(taken) => taken_i128(bytes@) == Some((taken.0, taken.1@)),
            None => taken_i128(bytes@) is None,
        },
{
    postcard::take_from_bytes::<i128>(bytes).ok()
}

/// `postcard::take_from_bytes` of a text: the UTF-8 text of the length that the bytes
/// start with, and the bytes after it.
#[verifier::external_body]
fn take_text<'a>(bytes: &'a [u8]) -> (taken: Option<(String, &'a [u8])>)
    ensures
        match taken {
            Some(taken) => taken_text(bytes@) == Some((taken.0@, taken.1@)),
            None => taken_text(bytes@) is None,
        },
{
    postcard::take_from_bytes::<String>(bytes).ok()
}

/// What a spelled record holds, checked or not.
pub enum LedgerWire {
    Live { uid: u64, record: WireRecord },
    Tombstone { uid: u64 },
}

/// What a spelled stream record holds, checked or not.
pub struct WireRecord {
    pub content_type: Seq<char>,
    pub expiry: WireExpiry,
    pub lifecycle: StreamLifecycle,
    pub created_at: u64,
}

/// A spelled expiry policy, checked or not.
#[derive(Debug, Clone, Copy, PartialEq, Eq, Structural)]
pub enum WireExpiry {
    Never,
    SlidingTtl(u64),
    AbsoluteExpiry(i128),
}

impl WireExpiry {
    pub open spec fn policy(self) -> ExpiryPolicy {
        match self {
            WireExpiry::Never => ExpiryPolicy::Never,
            WireExpiry::SlidingTtl(seconds) => ExpiryPolicy::SlidingTtl(StreamTtl { seconds }),
            WireExpiry::AbsoluteExpiry(unix_nanoseconds) => ExpiryPolicy::AbsoluteExpiry(
                ExpiresAt { unix_nanoseconds },
            ),
        }
    }
}

/// The spelling of an expiry policy.
pub open spec fn expiry_bytes(expiry: ExpiryPolicy) -> Seq<u8> {
    match expiry {
        ExpiryPolicy::Never => postcard_u32(0),
        ExpiryPolicy::SlidingTtl(ttl) => postcard_u32(1) + postcard_u64(ttl.seconds),
        ExpiryPolicy::AbsoluteExpiry(at) => postcard_u32(2) + postcard_i128(at.unix_nanoseconds),
    }
}

/// The variant number of a lifecycle.
pub open spec fn lifecycle_variant(lifecycle: StreamLifecycle) -> u32 {
    match lifecycle {
        StreamLifecycle::Open => 0,
        StreamLifecycle::Closed => 1,
    }
}

/// The spelling of a Ledger record.
pub open spec fn ledger_record_bytes(record: LedgerRecordModel) -> Seq<u8> {
    match record {
        LedgerRecordModel::Live { uid, record } => postcard_u32(0) + (postcard_u64(uid.value) + (
        postcard_text(record.content_type) + (expiry_bytes(record.expiry) + (postcard_u32(
            lifecycle_variant(record.lifecycle),
        ) + postcard_u64(record.created_at.value))))),
        LedgerRecordModel::Tombstone { uid } => postcard_u32(1) + postcard_u64(uid.value),
    }
}

/// The expiry policy that bytes start with, and the rest.
pub open spec fn taken_expiry(bytes: Seq<u8>) -> Option<(WireExpiry, Seq<u8>)> {
    match taken_u32(bytes) {
        Some((variant, rest)) => if variant == 0 {
            Some((WireExpiry::Never, rest))
        } else if variant == 1 {
            match taken_u64(rest) {
                Some((seconds, rest)) => Some((WireExpiry::SlidingTtl(seconds), rest)),
                None => None,
            }
        } else if variant == 2 {
            match taken_i128(rest) {
                Some((at, rest)) => Some((WireExpiry::AbsoluteExpiry(at), rest)),
                None => None,
            }
        } else {
            None
        },
        None => None,
    }
}

/// The lifecycle that bytes start with, and the rest.
pub open spec fn taken_lifecycle(bytes: Seq<u8>) -> Option<(StreamLifecycle, Seq<u8>)> {
    match taken_u32(bytes) {
        Some((variant, rest)) => if variant == 0 {
            Some((StreamLifecycle::Open, rest))
        } else if variant == 1 {
            Some((StreamLifecycle::Closed, rest))
        } else {
            None
        },
        None => None,
    }
}

/// The stream record that bytes start with, and the rest.
pub open spec fn taken_record(bytes: Seq<u8>) -> Option<(WireRecord, Seq<u8>)> {
    match taken_text(bytes) {
        Some((content_type, rest)) => match taken_expiry(rest) {
            Some((expiry, rest)) => match taken_lifecycle(rest) {
                Some((lifecycle, rest)) => match taken_u64(rest) {
                    Some((created_at, rest)) => Some(
                        (WireRecord { content_type, expiry, lifecycle, created_at }, rest),
                    ),
                    None => None,
                },
                None => None,
            },
            None => None,
        },
        None => None,
    }
}

/// The Ledger record that bytes start with, and the rest.
pub open spec fn taken_ledger(bytes: Seq<u8>) -> Option<(LedgerWire, Seq<u8>)> {
    match taken_u32(bytes) {
        Some((variant, rest)) => match taken_u64(rest) {
            Some((uid, rest)) => if variant == 0 {
                match taken_record(rest) {
                    Some((record, rest)) => Some((LedgerWire::Live { uid, record }, rest)),
                    None => None,
                }
            } else if variant == 1 {
                Some((LedgerWire::Tombstone { uid }, rest))
            } else {
                None
            },
            None => None,
        },
        None => None,
    }
}

/// What a spelled record says.
pub open spec fn wire_model(wire: LedgerWire) -> LedgerRecordModel {
    match wire {
        LedgerWire::Live { uid, record } => LedgerRecordModel::Live {
            uid: StreamUid { value: uid },
            record: RecordModel {
                content_type: record.content_type,
                expiry: record.expiry.policy(),
                lifecycle: record.lifecycle,
                created_at: BatchId { value: record.created_at },
            },
        },
        LedgerWire::Tombstone { uid } => LedgerRecordModel::Tombstone {
            uid: StreamUid { value: uid },
        },
    }
}

/// Coordinates are nonzero and the grammar accepts the protocol fields.
pub open spec fn ledger_record_accepted(
    record: LedgerRecordModel,
    accepts: spec_fn(ProtocolText) -> bool,
) -> bool {
    &&& record.wf()
    &&& record matches LedgerRecordModel::Live { record, .. } ==> crate::domain::protocol::content_type_accepted(
        record.content_type,
        accepts,
    ) && record.expiry.accepted(accepts)
}

/// The record that bytes hold: they are one complete acceptable record.
pub open spec fn spec_decode_ledger_record(
    bytes: Seq<u8>,
    bytes_max: usize,
    accepts: spec_fn(ProtocolText) -> bool,
) -> Result<LedgerRecordModel, DecodeError> {
    if bytes.len() > bytes_max {
        Err(DecodeError::EncodedBytesOverMax { bytes_max, bytes_actual: bytes.len() as usize })
    } else {
        match taken_ledger(bytes) {
            None => Err(DecodeError::MalformedBody),
            Some((wire, rest)) => if !ledger_record_accepted(wire_model(wire), accepts) {
                Err(DecodeError::InvalidBody)
            } else if rest.len() > 0 {
                Err(DecodeError::TrailingBytes { bytes_actual: rest.len() as usize })
            } else {
                Ok(wire_model(wire))
            },
        }
    }
}

/// Fails when the row exceeds the bound.
pub fn encode_ledger_record(record: &LedgerRecord, bytes_max: usize) -> (encoded: Result<
    Vec<u8>,
    EncodeError,
>)
    ensures
        match encoded {
            Ok(bytes) => {
                &&& bytes@ == ledger_record_bytes(record@)
                &&& bytes@.len() <= bytes_max
            },
            Err(error) => ledger_record_bytes(record@).len() > bytes_max && error
                == (EncodeError::EncodedBytesOverMax {
                bytes_max,
                bytes_actual: ledger_record_bytes(record@).len() as usize,
            }),
        },
{
    let mut out: Vec<u8> = Vec::new();
    match record {
        LedgerRecord::Tombstone(tombstone) => {
            let variant = put_u32(1);
            let uid = put_u64(tombstone.uid.value);
            push_bytes(&mut out, variant.as_slice());
            push_bytes(&mut out, uid.as_slice());
            assert(out@ =~= variant@ + uid@);
        },
        LedgerRecord::Live { uid, record } => {
            let variant = put_u32(0);
            let stream = put_u64(uid.value);
            let kind = put_text(record.content_type.text.as_str());
            let expiry = put_expiry(record.expiry);
            let lifecycle = put_u32(
                match record.lifecycle {
                    StreamLifecycle::Open => 0,
                    StreamLifecycle::Closed => 1,
                },
            );
            let created = put_u64(record.created_at.value);
            push_bytes(&mut out, variant.as_slice());
            push_bytes(&mut out, stream.as_slice());
            push_bytes(&mut out, kind.as_slice());
            push_bytes(&mut out, expiry.as_slice());
            push_bytes(&mut out, lifecycle.as_slice());
            push_bytes(&mut out, created.as_slice());
            assert(out@ =~= variant@ + (stream@ + (kind@ + (expiry@ + (lifecycle@ + created@)))));
        },
    }
    enforce_encode_bound(out, bytes_max)
}

fn put_expiry(expiry: ExpiryPolicy) -> (bytes: Vec<u8>)
    ensures
        bytes@ == expiry_bytes(expiry),
{
    match expiry {
        ExpiryPolicy::Never => put_u32(0),
        ExpiryPolicy::SlidingTtl(ttl) => {
            let mut bytes = put_u32(1);
            let tail = put_u64(ttl.seconds);
            push_bytes(&mut bytes, tail.as_slice());
            bytes
        },
        ExpiryPolicy::AbsoluteExpiry(at) => {
            let mut bytes = put_u32(2);
            let tail = put_i128(at.unix_nanoseconds);
            push_bytes(&mut bytes, tail.as_slice());
            bytes
        },
    }
}

/// Reads one complete Ledger record.
pub fn decode_ledger_record<Grammar: Fn(ProtocolField<'_>) -> bool>(
    bytes: &[u8],
    bytes_max: usize,
    grammar: &Grammar,
) -> (record: Result<LedgerRecord, DecodeError>)
    requires
        crate::domain::protocol::is_total(*grammar),
    ensures
        record matches Ok(record) ==> record@.wf(),
        forall|accepts: spec_fn(ProtocolText) -> bool|
            #[trigger] crate::domain::protocol::decides(*grammar, accepts) ==> match record {
                Ok(record) => spec_decode_ledger_record(bytes@, bytes_max, accepts) == Ok::<
                    LedgerRecordModel,
                    DecodeError,
                >(record@),
                Err(error) => spec_decode_ledger_record(bytes@, bytes_max, accepts) == Err::<
                    LedgerRecordModel,
                    DecodeError,
                >(error),
            },
{
    match decode_body_bound(bytes, bytes_max) {
        Ok(()) => {},
        Err(error) => {
            return Err(error);
        },
    }
    let (variant, rest) = match take_u32(bytes) {
        Some(taken) => taken,
        None => {
            return Err(DecodeError::MalformedBody);
        },
    };
    let (uid, rest) = match take_u64(rest) {
        Some(taken) => taken,
        None => {
            return Err(DecodeError::MalformedBody);
        },
    };
    if variant > 1 {
        return Err(DecodeError::MalformedBody);
    }
    if variant == 1 {
        if uid == 0 {
            return Err(DecodeError::InvalidBody);
        }
        if rest.len() > 0 {
            return Err(DecodeError::TrailingBytes { bytes_actual: rest.len() });
        }
        return Ok(LedgerRecord::Tombstone(PathTombstone { uid: StreamUid { value: uid } }));
    }
    let (text, rest) = match take_text(rest) {
        Some(taken) => taken,
        None => {
            return Err(DecodeError::MalformedBody);
        },
    };
    let (wire_expiry, rest) = match take_expiry(rest) {
        Some(taken) => taken,
        None => {
            return Err(DecodeError::MalformedBody);
        },
    };
    let (lifecycle, rest) = match take_lifecycle(rest) {
        Some(taken) => taken,
        None => {
            return Err(DecodeError::MalformedBody);
        },
    };
    let (created_at, rest) = match take_u64(rest) {
        Some(taken) => taken,
        None => {
            return Err(DecodeError::MalformedBody);
        },
    };
    if uid == 0 {
        return Err(DecodeError::InvalidBody);
    }
    let content_type = match StreamContentType::new(text, grammar) {
        Some(content_type) => content_type,
        None => {
            return Err(DecodeError::InvalidBody);
        },
    };
    let expiry = match wire_expiry {
        WireExpiry::Never => ExpiryPolicy::Never,
        WireExpiry::SlidingTtl(seconds) => {
            if seconds == 0 {
                return Err(DecodeError::InvalidBody);
            }
            ExpiryPolicy::SlidingTtl(StreamTtl { seconds })
        },
        WireExpiry::AbsoluteExpiry(unix_nanoseconds) => {
            if !grammar(ProtocolField::ExpiresAt(unix_nanoseconds)) {
                return Err(DecodeError::InvalidBody);
            }
            ExpiryPolicy::AbsoluteExpiry(ExpiresAt { unix_nanoseconds })
        },
    };
    if created_at == 0 {
        return Err(DecodeError::InvalidBody);
    }
    if rest.len() > 0 {
        return Err(DecodeError::TrailingBytes { bytes_actual: rest.len() });
    }
    Ok(
        LedgerRecord::Live {
            uid: StreamUid { value: uid },
            record: StreamRecord {
                content_type,
                expiry,
                lifecycle,
                created_at: BatchId { value: created_at },
            },
        },
    )
}

fn take_expiry<'a>(bytes: &'a [u8]) -> (taken: Option<(WireExpiry, &'a [u8])>)
    ensures
        match taken {
            Some(taken) => taken_expiry(bytes@) == Some((taken.0, taken.1@)),
            None => taken_expiry(bytes@) is None,
        },
{
    let (variant, rest) = match take_u32(bytes) {
        Some(taken) => taken,
        None => {
            return None;
        },
    };
    if variant == 0 {
        return Some((WireExpiry::Never, rest));
    }
    if variant == 1 {
        return match take_u64(rest) {
            Some((seconds, rest)) => Some((WireExpiry::SlidingTtl(seconds), rest)),
            None => None,
        };
    }
    if variant == 2 {
        return match take_i128(rest) {
            Some((at, rest)) => Some((WireExpiry::AbsoluteExpiry(at), rest)),
            None => None,
        };
    }
    None
}

fn take_lifecycle<'a>(bytes: &'a [u8]) -> (taken: Option<(StreamLifecycle, &'a [u8])>)
    ensures
        match taken {
            Some(taken) => taken_lifecycle(bytes@) == Some((taken.0, taken.1@)),
            None => taken_lifecycle(bytes@) is None,
        },
{
    match take_u32(bytes) {
        Some((variant, rest)) => if variant == 0 {
            Some((StreamLifecycle::Open, rest))
        } else if variant == 1 {
            Some((StreamLifecycle::Closed, rest))
        } else {
            None
        },
        None => None,
    }
}

/// An expiry policy's spelling reads back as the policy whatever follows it.
proof fn lemma_expiry_reads(expiry: ExpiryPolicy, rest: Seq<u8>)
    ensures
        taken_expiry(expiry_bytes(expiry) + rest) matches Some((wire, left)) && left == rest
            && wire.policy() == expiry,
{
    match expiry {
        ExpiryPolicy::Never => {
            lemma_u32_reads(0);
        },
        ExpiryPolicy::SlidingTtl(ttl) => {
            let tail = postcard_u64(ttl.seconds);
            lemma_u32_reads(1);
            lemma_u64_reads(ttl.seconds);
            assert(expiry_bytes(expiry) + rest =~= postcard_u32(1) + (tail + rest));
        },
        ExpiryPolicy::AbsoluteExpiry(at) => {
            let tail = postcard_i128(at.unix_nanoseconds);
            lemma_u32_reads(2);
            lemma_i128_reads(at.unix_nanoseconds);
            assert(expiry_bytes(expiry) + rest =~= postcard_u32(2) + (tail + rest));
        },
    }
}

/// A record's spelling reads back as the record.
proof fn lemma_ledger_reads(record: LedgerRecordModel)
    requires
        ledger_record_bytes(record).len() <= usize::MAX,
    ensures
        taken_ledger(ledger_record_bytes(record)) matches Some((wire, rest)) && rest.len() == 0
            && wire_model(wire) == record,
{
    let none = Seq::<u8>::empty();
    match record {
        LedgerRecordModel::Tombstone { uid } => {
            lemma_u32_reads(1);
            lemma_u64_reads(uid.value);
            assert(postcard_u64(uid.value) + none =~= postcard_u64(uid.value));
            assert(taken_u64(postcard_u64(uid.value)) == Some((uid.value, none)));
        },
        LedgerRecordModel::Live { uid, record } => {
            let created = postcard_u64(record.created_at.value);
            let variant = lifecycle_variant(record.lifecycle);
            let four = postcard_u32(variant) + created;
            let three = expiry_bytes(record.expiry) + four;
            let two = postcard_text(record.content_type) + three;
            let one = postcard_u64(uid.value) + two;
            lemma_u32_reads(0);
            lemma_u32_reads(variant);
            lemma_u64_reads(uid.value);
            lemma_u64_reads(record.created_at.value);
            lemma_text_reads(record.content_type);
            lemma_expiry_reads(record.expiry, four);
            assert(created + none =~= created);
            assert(taken_u64(created) == Some((record.created_at.value, none)));
            assert(taken_lifecycle(four) == Some((record.lifecycle, created)));
            assert(taken_text(two) == Some((record.content_type, three)));
            assert(taken_u64(one) == Some((uid.value, two)));
        },
    }
}

/// Reading the bytes that [`encode_ledger_record`] writes for an acceptable record
/// gives the record back.
pub proof fn law_ledger_record_round_trips(
    record: LedgerRecordModel,
    bytes_max: usize,
    accepts: spec_fn(ProtocolText) -> bool,
)
    requires
        ledger_record_accepted(record, accepts),
        ledger_record_bytes(record).len() <= bytes_max,
    ensures
        spec_decode_ledger_record(ledger_record_bytes(record), bytes_max, accepts) == Ok::<
            LedgerRecordModel,
            DecodeError,
        >(record),
{
    lemma_ledger_reads(record);
}

proof fn lemma_regroup(first: Seq<u8>, second: Seq<u8>, third: Seq<u8>)
    ensures
        (first + second) + third == first + (second + third),
{
    assert((first + second) + third =~= first + (second + third));
}

/// A record's spelling with bytes behind it reads as the record and those bytes.
#[verifier::rlimit(50)]
proof fn lemma_ledger_reads_before(record: LedgerRecordModel, tail: Seq<u8>)
    requires
        ledger_record_bytes(record).len() <= usize::MAX,
    ensures
        taken_ledger(ledger_record_bytes(record) + tail) matches Some((wire, rest)) && rest == tail
            && wire_model(wire) == record,
{
    match record {
        LedgerRecordModel::Tombstone { uid } => {
            lemma_u32_reads(1);
            lemma_u64_reads(uid.value);
            lemma_regroup(postcard_u32(1), postcard_u64(uid.value), tail);
            assert(taken_u32(postcard_u32(1) + (postcard_u64(uid.value) + tail)) == Some(
                (1u32, postcard_u64(uid.value) + tail),
            ));
            assert(taken_u64(postcard_u64(uid.value) + tail) == Some((uid.value, tail)));
        },
        LedgerRecordModel::Live { uid, record } => {
            let variant = lifecycle_variant(record.lifecycle);
            let created = postcard_u64(record.created_at.value);
            let four = postcard_u32(variant) + created;
            let three = expiry_bytes(record.expiry) + four;
            let two = postcard_text(record.content_type) + three;
            let one = postcard_u64(uid.value) + two;
            lemma_regroup(postcard_u32(variant), created, tail);
            lemma_regroup(expiry_bytes(record.expiry), four, tail);
            lemma_regroup(postcard_text(record.content_type), three, tail);
            lemma_regroup(postcard_u64(uid.value), two, tail);
            lemma_regroup(postcard_u32(0), one, tail);
            lemma_u32_reads(0);
            lemma_u32_reads(variant);
            lemma_u64_reads(uid.value);
            lemma_u64_reads(record.created_at.value);
            lemma_text_reads(record.content_type);
            lemma_expiry_reads(record.expiry, four + tail);
            assert(taken_u64(created + tail) == Some((record.created_at.value, tail)));
            assert(taken_lifecycle(four + tail) == Some((record.lifecycle, created + tail)));
            assert(taken_text(two + tail) == Some((record.content_type, three + tail)));
            assert(taken_u64(one + tail) == Some((uid.value, two + tail)));
            assert(taken_u32(postcard_u32(0) + (one + tail)) == Some((0u32, one + tail)));
        },
    }
}

/// Bytes behind a complete record are refused, however many they are.
pub proof fn law_trailing_bytes_are_refused(
    record: LedgerRecordModel,
    tail: Seq<u8>,
    bytes_max: usize,
    accepts: spec_fn(ProtocolText) -> bool,
)
    requires
        ledger_record_accepted(record, accepts),
        tail.len() > 0,
        ledger_record_bytes(record).len() + tail.len() <= bytes_max,
    ensures
        spec_decode_ledger_record(ledger_record_bytes(record) + tail, bytes_max, accepts) == Err::<
            LedgerRecordModel,
            DecodeError,
        >(DecodeError::TrailingBytes { bytes_actual: tail.len() as usize }),
{
    lemma_ledger_reads_before(record, tail);
}

} // verus!
