//! Checksummed frames and postcard bodies.

use strom_storage::domain::coordinate::{BatchId, StreamUid};
use strom_storage::domain::envelope::{
    decode_body_bound, decode_frame, encode_frame, enforce_encode_bound, DecodeError, EncodeError,
    ObjectKind,
};
use strom_storage::domain::ledger::{LedgerRecord, PathTombstone, StreamRecord};
use strom_storage::domain::ledger_codec::{decode_ledger_record, encode_ledger_record};
use strom_storage::domain::protocol::{
    ExpiresAt, ExpiryPolicy, ProtocolField, StreamContentType, StreamLifecycle, StreamTtl,
};

fn grammar(field: ProtocolField<'_>) -> bool {
    match field {
        ProtocolField::ContentType(kind) => kind.contains('/'),
        ProtocolField::StreamPath(_) | ProtocolField::ExpiresAt(_) => true,
    }
}

fn live(expiry: ExpiryPolicy, lifecycle: StreamLifecycle) -> LedgerRecord {
    LedgerRecord::Live {
        uid: StreamUid::try_from(300).unwrap(),
        record: StreamRecord::new(
            StreamContentType::new("a/b".to_string(), &grammar).unwrap(),
            expiry,
            lifecycle,
            BatchId::try_from(5).unwrap(),
        ),
    }
}

#[test]
fn encoder_bounds_include_the_complete_frame_overhead() {
    let body = vec![4u8, 0, 0, 0, 0];
    assert_eq!(Ok(body.clone()), enforce_encode_bound(body.clone(), 5));
    assert_eq!(
        enforce_encode_bound(body.clone(), 4),
        Err(EncodeError::EncodedBytesOverMax { bytes_max: 4, bytes_actual: 5 }),
        "the encoder rejects the first body bound crossing"
    );

    let frame = encode_frame(ObjectKind::Seal, 1, &body, 15).unwrap();
    assert_eq!(
        frame.len(),
        15,
        "the complete frame adds six header and four checksum bytes"
    );
    assert_eq!(
        encode_frame(ObjectKind::Seal, 1, &body, 14),
        Err(EncodeError::EncodedBytesOverMax { bytes_max: 14, bytes_actual: 15 }),
        "frame bounds include magic, discriminators, and checksum"
    );
}

#[test]
fn frames_open_only_at_their_kind_version_and_checksum() {
    let frame = encode_frame(ObjectKind::Wal, 3, b"123456789", 64).unwrap();
    assert_eq!(b"STRM\x02\x03123456789", &frame[..15]);
    assert_eq!(Ok(&b"123456789"[..]), decode_frame(ObjectKind::Wal, 3, &frame, 64));
    assert_eq!(
        Err(DecodeError::EncodedBytesOverMax { bytes_max: 18, bytes_actual: 19 }),
        decode_frame(ObjectKind::Wal, 3, &frame, 18)
    );
    assert_eq!(
        Err(DecodeError::FrameTooShort { bytes_min: 10, bytes_actual: 9 }),
        decode_frame(ObjectKind::Wal, 3, &frame[..9], 64)
    );
    let mut magic = frame.clone();
    magic[3] = b'X';
    assert_eq!(
        Err(DecodeError::MagicMismatch { observed: *b"STRX" }),
        decode_frame(ObjectKind::Wal, 3, &magic, 64)
    );
    let mut damaged = frame.clone();
    damaged[7] ^= 1;
    assert!(matches!(
        decode_frame(ObjectKind::Wal, 3, &damaged, 64),
        Err(DecodeError::ChecksumMismatch { .. })
    ));
    assert_eq!(
        Err(DecodeError::ObjectKindMismatch { expected: 1, observed: 2 }),
        decode_frame(ObjectKind::Seal, 3, &frame, 64)
    );
    assert_eq!(
        Err(DecodeError::UnsupportedVersion { observed: 3 }),
        decode_frame(ObjectKind::Wal, 4, &frame, 64)
    );
    let bare = encode_frame(ObjectKind::Seal, 1, &[], 64).unwrap();
    assert_eq!(Ok(&[][..]), decode_frame(ObjectKind::Seal, 1, &bare, 64));
}

#[test]
fn the_checksum_is_crc32c_in_network_order() {
    let frame = encode_frame(ObjectKind::Seal, 1, b"", 64).unwrap();
    let mut damaged = frame.clone();
    damaged[6] = 0;
    damaged[7] = 0;
    damaged[8] = 0;
    damaged[9] = 0;
    let computed = u32::from_be_bytes([frame[6], frame[7], frame[8], frame[9]]);
    assert_ne!(0, computed);
    assert_eq!(
        Err(DecodeError::ChecksumMismatch { declared: 0, computed }),
        decode_frame(ObjectKind::Seal, 1, &damaged, 64)
    );
    assert_eq!(crc32c::crc32c(b"STRM\x01\x01"), computed);
    assert_eq!(0xe306_9283, crc32c::crc32c(b"123456789"));
}

#[test]
fn the_checksum_shifts_every_bit_through_the_castagnoli_polynomial() {
    for body in [&b""[..], b"123456789", &[0xff; 40], &[0, 1, 2, 0x80]] {
        let frame = encode_frame(ObjectKind::Wal, 7, body, 64).unwrap();
        let (covered, declared) = frame.split_at(frame.len() - 4);
        let mut register = 0xffff_ffffu32;
        for byte in covered {
            register ^= u32::from(*byte);
            for _ in 0..8 {
                let low = register % 2;
                register /= 2;
                if low == 1 {
                    register ^= 0x82f6_3b78;
                }
            }
        }
        assert_eq!(declared, (register ^ 0xffff_ffff).to_be_bytes());
    }
}

#[test]
fn numbers_are_spelled_seven_bits_a_byte_and_signs_in_the_lowest() {
    let spelled = |policy| encode_ledger_record(&live(policy, StreamLifecycle::Open), 64).unwrap();
    let ttl = |seconds| ExpiryPolicy::SlidingTtl(StreamTtl { seconds });
    let at = |unix_nanoseconds| ExpiryPolicy::AbsoluteExpiry(ExpiresAt { unix_nanoseconds });
    assert_eq!([1, 0x7f, 0, 5], spelled(ttl(127))[7..]);
    assert_eq!([1, 0x80, 0x01, 0, 5], spelled(ttl(128))[7..]);
    assert_eq!([1, 0x90, 0x1c, 0, 5], spelled(ttl(3_600))[7..]);
    let widest = spelled(ttl(u64::MAX));
    assert_eq!([0xff; 9], widest[8..17]);
    assert_eq!([1, 0, 5], widest[17..]);
    assert_eq!([2, 9, 0, 5], spelled(at(-5))[7..]);
    assert_eq!([2, 10, 0, 5], spelled(at(5))[7..]);
    let lowest = spelled(at(i128::MIN));
    assert_eq!([0xff; 18], lowest[8..26]);
    assert_eq!([3, 0, 5], lowest[26..]);
}

#[test]
fn numbers_may_be_spelled_long_but_not_beyond_their_bits() {
    let decode = |bytes: &[u8]| decode_ledger_record(bytes, 64, &grammar);
    let tombstone = |uid| {
        Ok(LedgerRecord::Tombstone(PathTombstone { uid: StreamUid::try_from(uid).unwrap() }))
    };
    assert_eq!(tombstone(7), decode(&[1, 0x87, 0x80, 0x00]));
    assert_eq!(tombstone(7), decode(&[0x81, 0x80, 0x80, 0x80, 0x00, 7]));
    let mut widest = vec![1, 0xff, 0xff, 0xff, 0xff, 0xff, 0xff, 0xff, 0xff, 0xff, 1];
    assert_eq!(tombstone(u64::MAX), decode(&widest));
    widest[10] = 2;
    assert_eq!(Err(DecodeError::MalformedBody), decode(&widest));
    assert_eq!(
        Err(DecodeError::MalformedBody),
        decode(&[0x81, 0x80, 0x80, 0x80, 0x80, 0x00, 7]),
        "five bytes spell a variant at most"
    );
    assert_eq!(Err(DecodeError::MalformedBody), decode(&[1, 0x87]));
    assert_eq!(
        Err(DecodeError::MalformedBody),
        decode(&[0, 7, 4, b'a', b'/', b'b']),
        "a text ends inside the bytes"
    );
    assert_eq!(
        Err(DecodeError::MalformedBody),
        decode(&[0, 7, 3, b'a', b'/', 0xff, 0, 0, 5]),
        "a text is UTF-8"
    );
}

#[test]
fn body_constructors_reject_zero_stream_uids() {
    let bytes = b"\x00\x00\x18application/octet-stream\x00\x00\x01";
    assert_eq!(
        decode_ledger_record(bytes, 1_024, &grammar),
        Err(DecodeError::InvalidBody),
        "private wire values must re-enter through the stream uid constructor"
    );
    let mut named = bytes.to_vec();
    named[1] = 1;
    assert!(decode_ledger_record(&named, 1_024, &grammar).is_ok());
}

#[test]
fn ledger_records_have_one_postcard_spelling() {
    let record = live(ExpiryPolicy::Never, StreamLifecycle::Closed);
    let bytes = encode_ledger_record(&record, 1_024).unwrap();
    assert_eq!(vec![0, 0xac, 0x02, 3, b'a', b'/', b'b', 0, 1, 5], bytes);
    assert_eq!(Ok(record), decode_ledger_record(&bytes, 1_024, &grammar));

    let tombstone =
        LedgerRecord::Tombstone(PathTombstone { uid: StreamUid::try_from(300).unwrap() });
    let bytes = encode_ledger_record(&tombstone, 1_024).unwrap();
    assert_eq!(vec![1, 0xac, 0x02], bytes);
    assert_eq!(Ok(tombstone), decode_ledger_record(&bytes, 1_024, &grammar));

    let policies = [
        ExpiryPolicy::SlidingTtl(StreamTtl { seconds: 3_600 }),
        ExpiryPolicy::AbsoluteExpiry(ExpiresAt { unix_nanoseconds: -5 }),
        ExpiryPolicy::AbsoluteExpiry(ExpiresAt { unix_nanoseconds: i128::MAX }),
    ];
    for policy in policies {
        let record = live(policy, StreamLifecycle::Open);
        let bytes = encode_ledger_record(&record, 1_024).unwrap();
        assert_eq!(Ok(record), decode_ledger_record(&bytes, 1_024, &grammar));
    }
}

#[test]
fn ledger_record_bytes_are_bounded_complete_and_valid() {
    let record = live(ExpiryPolicy::Never, StreamLifecycle::Open);
    let bytes = encode_ledger_record(&record, 10).unwrap();
    assert_eq!(
        Err(EncodeError::EncodedBytesOverMax { bytes_max: 9, bytes_actual: 10 }),
        encode_ledger_record(&record, 9)
    );
    assert_eq!(
        Err(DecodeError::EncodedBytesOverMax { bytes_max: 9, bytes_actual: 10 }),
        decode_ledger_record(&bytes, 9, &grammar)
    );
    assert_eq!(
        Err(DecodeError::MalformedBody),
        decode_ledger_record(&bytes[..9], 1_024, &grammar)
    );
    let mut trailing = bytes.clone();
    trailing.push(7);
    assert_eq!(
        Err(DecodeError::TrailingBytes { bytes_actual: 1 }),
        decode_ledger_record(&trailing, 1_024, &grammar)
    );
    let mut ungrammatical = bytes.clone();
    ungrammatical[5] = b'?';
    assert_eq!(
        Err(DecodeError::InvalidBody),
        decode_ledger_record(&ungrammatical, 1_024, &grammar)
    );
    assert_eq!(Ok(()), decode_body_bound(&bytes, 10));
}

#[test]
fn frame_failures_spell_their_messages() {
    let cases = [
        (
            DecodeError::MagicMismatch { observed: [1, 2, 30, 255] },
            "frame magic is [1, 2, 30, 255]; expected STRM",
        ),
        (
            DecodeError::ChecksumMismatch { declared: 0xbeef, computed: 0xe306_9283 },
            "frame checksum is 0x0000beef; computed 0xe3069283",
        ),
        (
            DecodeError::ObjectKindMismatch { expected: 1, observed: 2 },
            "object kind is 2; expected 1 at this location",
        ),
        (DecodeError::UnsupportedVersion { observed: 9 }, "object format version 9 is unsupported"),
        (
            DecodeError::FrameTooShort { bytes_min: 10, bytes_actual: 9 },
            "frame is 9 bytes; at least 10 are required",
        ),
        (DecodeError::MalformedBody, "postcard body is malformed"),
        (DecodeError::InvalidBody, "postcard body violates a domain invariant"),
        (DecodeError::IdentityMismatch, "body identity differs from the durable location"),
        (DecodeError::FormatMismatch, "body format does not match the envelope version"),
        (DecodeError::TrailingBytes { bytes_actual: 3 }, "postcard body has 3 trailing bytes"),
        (
            DecodeError::EncodedBytesOverMax { bytes_max: 4, bytes_actual: 5 },
            "encoded value is 5 bytes; the bound is 4",
        ),
    ];
    for (error, message) in cases {
        assert_eq!(message, error.to_string());
    }
    assert_eq!(
        "encoded value is 5 bytes; the bound is 4",
        EncodeError::EncodedBytesOverMax { bytes_max: 4, bytes_actual: 5 }.to_string()
    );
}
