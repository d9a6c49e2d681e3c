//! Checksummed framing and bounded bodies.
//!
//! A frame is the magic `STRM`, the object kind, the format version, the body and
//! the big-endian CRC-32C of everything before it.

use vstd::prelude::*;

use crate::domain::text::{number_text, push_bytes, push_fixed_hex, text_of_ascii};

verus! {

/// Magic, kind and version.
pub const HEADER_BYTES: usize = 6;

/// The trailing checksum.
pub const CHECKSUM_BYTES: usize = 4;

/// The shortest frame: four magic bytes, two discriminator bytes, one checksum.
pub const FRAME_BYTES_MIN: usize = 10;

/// What a frame carries.
#[derive(Debug, Clone, Copy, PartialEq, Eq, Structural)]
pub enum ObjectKind {
    Seal,
    Wal,
}

impl ObjectKind {
    pub open spec fn spec_encoded(self) -> u8 {
        match self {
            ObjectKind::Seal => 1,
            ObjectKind::Wal => 2,
        }
    }

    pub fn encoded(self) -> (byte: u8)
        ensures
            byte == self.spec_encoded(),
    {
        match self {
            ObjectKind::Seal => 1,
            ObjectKind::Wal => 2,
        }
    }
}

/// A value could not be encoded.
#[derive(Debug, Clone, Copy, PartialEq, Eq, Structural)]
pub enum EncodeError {
    Serialization,
    EncodedBytesOverMax { bytes_max: usize, bytes_actual: usize },
}

/// Bytes could not be decoded.
#[allow(inconsistent_fields)]
#[derive(Debug, Clone, Copy, PartialEq, Eq)]
pub enum DecodeError {
    EncodedBytesOverMax { bytes_max: usize, bytes_actual: usize },
    FrameTooShort { bytes_min: usize, bytes_actual: usize },
    MagicMismatch { observed: [u8; 4] },
    ChecksumMismatch { declared: u32, computed: u32 },
    ObjectKindMismatch { expected: u8, observed: u8 },
    UnsupportedVersion { observed: u8 },
    MalformedBody,
    InvalidBody,
    IdentityMismatch,
    FormatMismatch,
    TrailingBytes { bytes_actual: usize },
}

impl EncodeError {
    pub open spec fn spec_message(self) -> Seq<char> {
        match self {
            EncodeError::Serialization => "domain value could not be serialized"@,
            EncodeError::EncodedBytesOverMax { bytes_max, bytes_actual } => "encoded value is "@
                + crate::domain::text::number_chars(bytes_actual as nat) + " bytes; the bound is "@
                + crate::domain::text::number_chars(bytes_max as nat),
        }
    }

    /// The message shown for this failure.
    pub fn to_string(&self) -> (message: String)
        ensures
            message@ == self.spec_message(),
    {
        match *self {
            EncodeError::Serialization => String::from_str("domain value could not be serialized"),
            EncodeError::EncodedBytesOverMax { bytes_max, bytes_actual } => {
                let mut message = String::from_str("encoded value is ");
                message.append(number_text(bytes_actual as u64).as_str());
                message.append(" bytes; the bound is ");
                message.append(number_text(bytes_max as u64).as_str());
                message
            },
        }
    }
}

/// The list spelling of four octets, such as `[1, 2, 3, 4]`.
pub open spec fn octets_text(octets: Seq<u8>) -> Seq<char> {
    "["@ + crate::domain::text::number_chars(octets[0] as nat) + ", "@
        + crate::domain::text::number_chars(octets[1] as nat) + ", "@
        + crate::domain::text::number_chars(octets[2] as nat) + ", "@
        + crate::domain::text::number_chars(octets[3] as nat) + "]"@
}

/// Eight lowercase hexadecimal digits.
pub open spec fn hex_chars(value: u32) -> Seq<char> {
    crate::domain::text::ascii_chars(crate::domain::text::fixed_hex(value as nat, 8))
}

fn octets_string(octets: &[u8; 4]) -> (text: String)
    ensures
        text@ == octets_text(octets@),
{
    let mut text = String::from_str("[");
    text.append(number_text(octets[0] as u64).as_str());
    text.append(", ");
    text.append(number_text(octets[1] as u64).as_str());
    text.append(", ");
    text.append(number_text(octets[2] as u64).as_str());
    text.append(", ");
    text.append(number_text(octets[3] as u64).as_str());
    text.append("]");
    text
}

fn hex_text(value: u32) -> (text: String)
    ensures
        text@ == hex_chars(value),
{
    let mut out: Vec<u8> = Vec::new();
    push_fixed_hex(&mut out, value, 8);
    proof {
        crate::domain::text::lemma_fixed_hex_ascii(value as nat, 8);
        assert(out@ =~= crate::domain::text::fixed_hex(value as nat, 8));
    }
    text_of_ascii(out.as_slice())
}

impl DecodeError {
    pub open spec fn spec_message(self) -> Seq<char> {
        match self {
            DecodeError::EncodedBytesOverMax { bytes_max, bytes_actual } => "encoded value is "@
                + crate::domain::text::number_chars(bytes_actual as nat) + " bytes; the bound is "@
                + crate::domain::text::number_chars(bytes_max as nat),
            DecodeError::FrameTooShort { bytes_min, bytes_actual } => "frame is "@
                + crate::domain::text::number_chars(bytes_actual as nat) + " bytes; at least "@
                + crate::domain::text::number_chars(bytes_min as nat) + " are required"@,
            DecodeError::MagicMismatch { observed } => "frame magic is "@ + octets_text(observed@)
                + "; expected STRM"@,
            DecodeError::ChecksumMismatch { declared, computed } => "frame checksum is 0x"@
                + hex_chars(declared) + "; computed 0x"@ + hex_chars(computed),
            DecodeError::ObjectKindMismatch { expected, observed } => "object kind is "@
                + crate::domain::text::number_chars(observed as nat) + "; expected "@
                + crate::domain::text::number_chars(expected as nat) + " at this location"@,
            DecodeError::UnsupportedVersion { observed } => "object format version "@
                + crate::domain::text::number_chars(observed as nat) + " is unsupported"@,
            DecodeError::MalformedBody => "postcard body is malformed"@,
            DecodeError::InvalidBody => "postcard body violates a domain invariant"@,
            DecodeError::IdentityMismatch => "body identity differs from the durable location"@,
            DecodeError::FormatMismatch => "body format does not match the envelope version"@,
            DecodeError::TrailingBytes { bytes_actual } => "postcard body has "@
                + crate::domain::text::number_chars(bytes_actual as nat) + " trailing bytes"@,
        }
    }

    /// The message shown for this failure.
    pub fn to_string(&self) -> (message: String)
        ensures
            message@ == self.spec_message(),
    {
        match *self {
            DecodeError::EncodedBytesOverMax { bytes_max, bytes_actual } => {
                let mut message = String::from_str("encoded value is ");
                message.append(number_text(bytes_actual as u64).as_str());
                message.append(" bytes; the bound is ");
                message.append(number_text(bytes_max as u64).as_str());
                message
            },
            DecodeError::FrameTooShort { bytes_min, bytes_actual } => {
                let mut message = String::from_str("frame is ");
                message.append(number_text(bytes_actual as u64).as_str());
                message.append(" bytes; at least ");
                message.append(number_text(bytes_min as u64).as_str());
                message.append(" are required");
                message
            },
            DecodeError::MagicMismatch { observed } => {
                let mut message = String::from_str("frame magic is ");
                message.append(octets_string(&observed).as_str());
                message.append("; expected STRM");
                message
            },
            DecodeError::ChecksumMismatch { declared, computed } => {
                let mut message = String::from_str("frame checksum is 0x");
                message.append(hex_text(declared).as_str());
                message.append("; computed 0x");
                message.append(hex_text(computed).as_str());
                message
            },
            DecodeError::ObjectKindMismatch { expected, observed } => {
                let mut message = String::from_str("object kind is ");
                message.append(number_text(observed as u64).as_str());
                message.append("; expected ");
                message.append(number_text(expected as u64).as_str());
                message.append(" at this location");
                message
            },
            DecodeError::UnsupportedVersion { observed } => {
                let mut message = String::from_str("object format version ");
                message.append(number_text(observed as u64).as_str());
                message.append(" is unsupported");
                message
            },
            DecodeError::MalformedBody => String::from_str("postcard body is malformed"),
            DecodeError::InvalidBody => String::from_str(
                "postcard body violates a domain invariant",
            ),
            DecodeError::IdentityMismatch => String::from_str(
                "body identity differs from the durable location",
            ),
            DecodeError::FormatMismatch => String::from_str(
                "body format does not match the envelope version",
            ),
            DecodeError::TrailingBytes { bytes_actual } => {
                let mut message = String::from_str("postcard body has ");
                message.append(number_text(bytes_actual as u64).as_str());
                message.append(" trailing bytes");
                message
            },
        }
    }
}

/// The magic `STRM`.
pub open spec fn magic() -> Seq<u8> {
    seq![83u8, 84u8, 82u8, 77u8]
}

/// The number that four big-endian octets spell.
pub open spec fn big_endian_value(octets: Seq<u8>) -> u32 {
    (octets[0] * 0x100_0000 + octets[1] * 0x1_0000 + octets[2] * 0x100 + octets[3]) as u32
}

/// The four big-endian octets of a number.
pub open spec fn big_endian(value: u32) -> Seq<u8> {
    seq![
        (value / 0x100_0000) as u8,
        (value / 0x1_0000 % 0x100) as u8,
        (value / 0x100 % 0x100) as u8,
        (value % 0x100) as u8,
    ]
}

/// One bit's step of a CRC with the Castagnoli polynomial, lowest bit first.
pub open spec fn crc_step(crc: u32) -> u32 {
    if crc % 2 == 0 {
        crc / 2
    } else {
        (crc / 2) ^ 0x82f6_3b78
    }
}

/// So many steps of a CRC.
pub open spec fn crc_steps(crc: u32, bits: nat) -> u32
    decreases bits,
{
    if bits == 0 {
        crc
    } else {
        crc_step(crc_steps(crc, (bits - 1) as nat))
    }
}

/// The CRC register after bytes: each byte is added and takes eight steps.
pub open spec fn crc_register(bytes: Seq<u8>) -> u32
    decreases bytes.len(),
{
    if bytes.len() == 0 {
        0xffff_ffff
    } else {
        crc_steps(crc_register(bytes.drop_last()) ^ (bytes.last() as u32), 8)
    }
}

/// The CRC-32C (Castagnoli) of bytes.
pub open spec fn crc32c_value(bytes: Seq<u8>) -> u32 {
    crc_register(bytes) ^ 0xffff_ffff
}

/// `crc32c::crc32c`: the CRC-32C of the bytes. The register starts full and comes out
/// inverted.
pub assume_specification[ crc32c::crc32c ](data: &[u8]) -> (checksum: u32)
    ensures
        checksum == crc32c_value(data@),
;

/// Everything that a frame's checksum covers.
pub open spec fn frame_covered(kind: ObjectKind, version: u8, body: Seq<u8>) -> Seq<u8> {
    magic() + seq![kind.spec_encoded(), version] + body
}

/// A complete frame.
pub open spec fn frame_bytes(kind: ObjectKind, version: u8, body: Seq<u8>) -> Seq<u8> {
    let covered = frame_covered(kind, version, body);
    covered + big_endian(crc32c_value(covered))
}

/// Frames a body; fails when the complete frame exceeds the bound.
pub fn encode_frame(kind: ObjectKind, version: u8, body: &[u8], bytes_max: usize) -> (frame: Result<
    Vec<u8>,
    EncodeError,
>)
    requires
        body@.len() + FRAME_BYTES_MIN <= usize::MAX,
    ensures
        match frame {
            Ok(frame) => frame@ == frame_bytes(kind, version, body@) && frame@.len() <= bytes_max,
            Err(error) => body@.len() + FRAME_BYTES_MIN > bytes_max && error
                == (EncodeError::EncodedBytesOverMax {
                bytes_max,
                bytes_actual: (body@.len() + FRAME_BYTES_MIN) as usize,
            }),
        },
{
    let mut frame: Vec<u8> = Vec::new();
    frame.push(83);
    frame.push(84);
    frame.push(82);
    frame.push(77);
    frame.push(kind.encoded());
    frame.push(version);
    push_bytes(&mut frame, body);
    assert(frame@ =~= frame_covered(kind, version, body@));
    let checksum: u32 = crc32c::crc32c(frame.as_slice());
    frame.push((checksum / 0x100_0000) as u8);
    frame.push((checksum / 0x1_0000 % 0x100) as u8);
    frame.push((checksum / 0x100 % 0x100) as u8);
    frame.push((checksum % 0x100) as u8);
    assert(frame@ =~= frame_bytes(kind, version, body@));
    enforce_encode_bound(frame, bytes_max)
}

/// The body of a frame of the expected kind and version.
///
/// The complete length is checked first, then the magic, then the checksum, and
/// only then what the header says.
pub open spec fn spec_decode_frame(
    expected_kind: ObjectKind,
    expected_version: u8,
    bytes: Seq<u8>,
    bytes_max: usize,
) -> Result<Seq<u8>, DecodeError> {
    let covered = bytes.take(bytes.len() - CHECKSUM_BYTES);
    let declared = big_endian_value(bytes.skip(bytes.len() - CHECKSUM_BYTES));
    if bytes.len() > bytes_max {
        Err(DecodeError::EncodedBytesOverMax { bytes_max, bytes_actual: bytes.len() as usize })
    } else if bytes.len() < FRAME_BYTES_MIN {
        Err(
            DecodeError::FrameTooShort {
                bytes_min: FRAME_BYTES_MIN,
                bytes_actual: bytes.len() as usize,
            },
        )
    } else if bytes.take(4) != magic() {
        Err(DecodeError::MagicMismatch { observed: [bytes[0], bytes[1], bytes[2], bytes[3]] })
    } else if declared != crc32c_value(covered) {
        Err(DecodeError::ChecksumMismatch { declared, computed: crc32c_value(covered) })
    } else if bytes[4] != expected_kind.spec_encoded() {
        Err(
            DecodeError::ObjectKindMismatch {
                expected: expected_kind.spec_encoded(),
                observed: bytes[4],
            },
        )
    } else if bytes[5] != expected_version {
        Err(DecodeError::UnsupportedVersion { observed: bytes[5] })
    } else {
        Ok(covered.skip(HEADER_BYTES as int))
    }
}

/// Checks a frame and gives its body.
pub fn decode_frame<'a>(
    expected_kind: ObjectKind,
    expected_version: u8,
    bytes: &'a [u8],
    bytes_max: usize,
) -> (body: Result<&'a [u8], DecodeError>)
    ensures
        match body {
            Ok(body) => spec_decode_frame(expected_kind, expected_version, bytes@, bytes_max)
                == Ok::<Seq<u8>, DecodeError>(body@),
            Err(error) => spec_decode_frame(expected_kind, expected_version, bytes@, bytes_max)
                == Err::<Seq<u8>, DecodeError>(error),
        },
{
    match decode_body_bound(bytes, bytes_max) {
        Ok(()) => {},
        Err(error) => {
            return Err(error);
        },
    }
    if bytes.len() < FRAME_BYTES_MIN {
        return Err(
            DecodeError::FrameTooShort { bytes_min: FRAME_BYTES_MIN, bytes_actual: bytes.len() },
        );
    }
    if bytes[0] != 83 || bytes[1] != 84 || bytes[2] != 82 || bytes[3] != 77 {
        let observed: [u8; 4] = [bytes[0], bytes[1], bytes[2], bytes[3]];
        proof {
            assert(bytes@.take(4)[0] == bytes@[0] && bytes@.take(4)[1] == bytes@[1]
                && bytes@.take(4)[2] == bytes@[2] && bytes@.take(4)[3] == bytes@[3]);
        }
        return Err(DecodeError::MagicMismatch { observed });
    }
    assert(bytes@.take(4) =~= magic());
    let covered_bytes: usize = bytes.len() - CHECKSUM_BYTES;
    let covered = vstd::slice::slice_subrange(bytes, 0, covered_bytes);
    assert(covered@ =~= bytes@.take(covered_bytes as int));
    let declared: u32 = bytes[covered_bytes] as u32 * 0x100_0000 + bytes[covered_bytes + 1] as u32
        * 0x1_0000 + bytes[covered_bytes + 2] as u32 * 0x100 + bytes[covered_bytes + 3] as u32;
    assert(declared == big_endian_value(bytes@.skip(covered_bytes as int)));
    let computed: u32 = crc32c::crc32c(covered);
    if declared != computed {
        return Err(DecodeError::ChecksumMismatch { declared, computed });
    }
    let observed_kind: u8 = bytes[4];
    if observed_kind != expected_kind.encoded() {
        return Err(
            DecodeError::ObjectKindMismatch {
                expected: expected_kind.encoded(),
                observed: observed_kind,
            },
        );
    }
    let observed_version: u8 = bytes[5];
    if observed_version != expected_version {
        return Err(DecodeError::UnsupportedVersion { observed: observed_version });
    }
    let body = vstd::slice::slice_subrange(covered, HEADER_BYTES, covered.len());
    assert(body@ =~= covered@.skip(HEADER_BYTES as int));
    Ok(body)
}

/// Decoding a frame at its own kind and version gives back the body that was
/// framed, whatever the body is.
pub proof fn law_frame_round_trips(kind: ObjectKind, version: u8, body: Seq<u8>, bytes_max: usize)
    requires
        body.len() + FRAME_BYTES_MIN <= bytes_max,
    ensures
        spec_decode_frame(kind, version, frame_bytes(kind, version, body), bytes_max) == Ok::<
            Seq<u8>,
            DecodeError,
        >(body),
{
    let covered = frame_covered(kind, version, body);
    let frame = frame_bytes(kind, version, body);
    let checksum = crc32c_value(covered);
    assert(frame.take(frame.len() - CHECKSUM_BYTES) =~= covered);
    assert(frame.skip(frame.len() - CHECKSUM_BYTES) =~= big_endian(checksum));
    assert(frame.take(4) =~= magic());
    assert(covered.skip(HEADER_BYTES as int) =~= body);
    assert(big_endian_value(big_endian(checksum)) == checksum);
}

/// Checks the length of a frameless body before anything reads it.
pub fn decode_body_bound(bytes: &[u8], bytes_max: usize) -> (checked: Result<(), DecodeError>)
    ensures
        match checked {
            Ok(_) => bytes@.len() <= bytes_max,
            Err(error) => bytes@.len() > bytes_max && error == (DecodeError::EncodedBytesOverMax {
                bytes_max,
                bytes_actual: bytes@.len() as usize,
            }),
        },
{
    if bytes.len() > bytes_max {
        return Err(DecodeError::EncodedBytesOverMax { bytes_max, bytes_actual: bytes.len() });
    }
    Ok(())
}

/// Checks the length of encoded bytes before they leave.
pub fn enforce_encode_bound(bytes: Vec<u8>, bytes_max: usize) -> (bounded: Result<
    Vec<u8>,
    EncodeError,
>)
    ensures
        match bounded {
            Ok(bounded) => bounded == bytes && bytes@.len() <= bytes_max,
            Err(error) => bytes@.len() > bytes_max && error == (EncodeError::EncodedBytesOverMax {
                bytes_max,
                bytes_actual: bytes@.len() as usize,
            }),
        },
{
    if bytes.len() > bytes_max {
        return Err(EncodeError::EncodedBytesOverMax { bytes_max, bytes_actual: bytes.len() });
    }
    Ok(bytes)
}

} // verus!
